//! The laws the encoder obeys, stated over the model and proved once for
//! all inputs.

use crate::model::{
    byte_texts, elem_texts, elems_ok, fields_entries, fields_ok, i64_text, join,
    lemma_fields_entries_append, pairs_entries, pairs_ok, seq_entries, text_of, u64_text,
    value_entries, value_ok,
};
use crate::value::{Field, Value};
use vstd::prelude::*;

verus! {

/// No occurrence of the character anywhere in the text.
pub open spec fn free_of(t: Seq<char>, c: char) -> bool {
    forall|i: int| 0 <= i < t.len() ==> t[i] != c
}

/// A key fit to head an entry: free of the entry separator, and not
/// starting with `?`.
pub open spec fn clean_key(k: Seq<char>) -> bool {
    free_of(k, '&') && (k.len() > 0 ==> k[0] != '?')
}

/// An entry as the encoder writes one: non-empty, free of the entry
/// separator, and not starting with `?`.
pub open spec fn clean_entry(e: Seq<char>) -> bool {
    e.len() > 0 && free_of(e, '&') && e[0] != '?'
}

/// Every entry of the list is clean.
pub open spec fn clean_entries(entries: Seq<Seq<char>>) -> bool {
    forall|i: int| 0 <= i < entries.len() ==> clean_entry(#[trigger] entries[i])
}

/// Decimal digit texts hold digit characters only, so they avoid any
/// separator or marker character.
pub proof fn lemma_u64_text_benign(n: nat, c: char)
    requires
        !('0' <= c <= '9'),
    ensures
        free_of(u64_text(n), c),
    decreases n,
{
    if n >= 10 {
        lemma_u64_text_benign(n / 10, c);
        assert forall|i: int| 0 <= i < u64_text(n).len() implies u64_text(n)[i] != c by {
            if i < u64_text(n / 10).len() {
                assert(u64_text(n)[i] == u64_text(n / 10)[i]);
            }
        }
    }
}

/// Signed decimal texts hold digit characters and `-` only.
pub proof fn lemma_i64_text_benign(i: int, c: char)
    requires
        !('0' <= c <= '9'),
        c != '-',
    ensures
        free_of(i64_text(i), c),
{
    if i < 0 {
        lemma_u64_text_benign((-i) as nat, c);
    } else {
        lemma_u64_text_benign(i as nat, c);
    }
}

/// Joining parts free of a character with a different separator yields a
/// text free of that character.
pub proof fn lemma_join_free(parts: Seq<Seq<char>>, sep: char, c: char)
    requires
        sep != c,
        forall|i: int| 0 <= i < parts.len() ==> free_of(#[trigger] parts[i], c),
    ensures
        free_of(join(parts, sep), c),
    decreases parts.len(),
{
    if parts.len() > 1 {
        let tail = parts.subrange(1, parts.len() as int);
        lemma_join_free(tail, sep, c);
        assert forall|i: int| 0 <= i < join(parts, sep).len() implies join(parts, sep)[i] != c by {
            let head = parts[0];
            if i < head.len() {
                assert(join(parts, sep)[i] == head[i]);
            } else if i > head.len() {
                assert(join(parts, sep)[i] == join(tail, sep)[i - head.len() - 1]);
            }
        }
    }
}

/// Joining non-empty, separator-free parts never puts two separators next
/// to each other, never starts or ends with one, and starts with the first
/// part's first character.
pub proof fn lemma_join_adjacency(entries: Seq<Seq<char>>, sep: char)
    requires
        forall|i: int| 0 <= i < entries.len() ==> (#[trigger] entries[i]).len() > 0 && free_of(
            entries[i],
            sep,
        ),
    ensures
        entries.len() > 0 ==> join(entries, sep).len() > 0 && join(entries, sep)[0]
            == entries[0][0],
        join(entries, sep).len() > 0 ==> join(entries, sep)[join(entries, sep).len() - 1] != sep,
        forall|k: int|
            0 <= k < join(entries, sep).len() - 1 ==> !(#[trigger] join(entries, sep)[k] == sep
                && join(entries, sep)[k + 1] == sep),
    decreases entries.len(),
{
    if entries.len() > 1 {
        let head = entries[0];
        let tail = entries.subrange(1, entries.len() as int);
        let rest = join(tail, sep);
        let out = join(entries, sep);
        lemma_join_adjacency(tail, sep);
        assert(out == head + seq![sep] + rest);
        assert(rest.len() > 0 && rest[0] == tail[0][0]);
        assert(out[out.len() - 1] == rest[rest.len() - 1]);
        assert forall|k: int| 0 <= k < out.len() - 1 implies !(#[trigger] out[k] == sep && out[k
            + 1] == sep) by {
            if k < head.len() {
                assert(out[k] == head[k]);
                assert(out[k] != sep);
            } else if k == head.len() {
                assert(out[k] == sep);
                assert(out[k + 1] == rest[0]);
                assert(rest[0] != sep);
            } else {
                assert(out[k] == rest[k - head.len() - 1]);
                assert(out[k + 1] == rest[k - head.len()]);
            }
        }
    }
}

/// Whether every text beneath the value — texts, characters, variant
/// names — is free of the entry separator `&`.
pub open spec fn value_clean(v: Value) -> bool
    decreases v,
{
    match v {
        Value::Char(c) => c != '&',
        Value::Text(s) => free_of(s@, '&'),
        Value::UnitVariant(name) => free_of(name@, '&'),
        Value::Present(inner) => value_clean(*inner),
        Value::Newtype(inner) => value_clean(*inner),
        Value::NewtypeVariant(_, inner) => value_clean(*inner),
        Value::Sequence(elems) => elems_clean(elems@),
        Value::Tuple(elems) => elems_clean(elems@),
        Value::Record(fields) => fields_clean(fields@),
        Value::StructVariant(_, fields) => fields_clean(fields@),
        Value::Dict(pairs) => pairs_clean(pairs@),
        _ => true,
    }
}

/// Every element of the sequence is clean.
pub open spec fn elems_clean(elems: Seq<Value>) -> bool
    decreases elems,
{
    elems.len() == 0 || (value_clean(elems[0]) && elems_clean(
        elems.subrange(1, elems.len() as int),
    ))
}

/// Every field has a clean key and a clean value.
pub open spec fn fields_clean(fields: Seq<Field>) -> bool
    decreases fields,
{
    fields.len() == 0 || (clean_key(fields[0].name@) && value_clean(fields[0].value)
        && fields_clean(fields.subrange(1, fields.len() as int)))
}

/// Every pair's key renders to a clean key, and every value is clean.
pub open spec fn pairs_clean(pairs: Seq<(Value, Value)>) -> bool
    decreases pairs,
{
    pairs.len() == 0 || ((text_of(pairs[0].0) matches Some(t) ==> clean_key(t)) && value_clean(
        pairs[0].1,
    ) && pairs_clean(pairs.subrange(1, pairs.len() as int)))
}

/// Each element of a clean list is clean.
proof fn lemma_elems_clean_index(elems: Seq<Value>, i: int)
    requires
        elems_clean(elems),
        0 <= i < elems.len(),
    ensures
        value_clean(elems[i]),
    decreases elems,
{
    if i > 0 {
        lemma_elems_clean_index(elems.subrange(1, elems.len() as int), i - 1);
    }
}

/// Each field of a clean list is clean.
proof fn lemma_fields_clean_index(fields: Seq<Field>, i: int)
    requires
        fields_clean(fields),
        0 <= i < fields.len(),
    ensures
        clean_key(fields[i].name@),
        value_clean(fields[i].value),
    decreases fields,
{
    if i > 0 {
        lemma_fields_clean_index(fields.subrange(1, fields.len() as int), i - 1);
    }
}

/// Each pair of a clean list is clean.
proof fn lemma_pairs_clean_index(pairs: Seq<(Value, Value)>, i: int)
    requires
        pairs_clean(pairs),
        0 <= i < pairs.len(),
    ensures
        text_of(pairs[i].0) matches Some(t) ==> clean_key(t),
        value_clean(pairs[i].1),
    decreases pairs,
{
    if i > 0 {
        lemma_pairs_clean_index(pairs.subrange(1, pairs.len() as int), i - 1);
    }
}

/// The canonical text of a clean value is free of the entry separator.
pub proof fn lemma_text_of_clean(v: Value)
    requires
        value_clean(v),
    ensures
        text_of(v) matches Some(t) ==> free_of(t, '&'),
    decreases v,
{
    match v {
        Value::I64(n) => {
            lemma_i64_text_benign(n as int, '&');
        },
        Value::U64(n) => {
            lemma_u64_text_benign(n as nat, '&');
        },
        Value::Bytes(bytes) => {
            assert forall|i: int| 0 <= i < byte_texts(bytes@).len() implies free_of(
                #[trigger] byte_texts(bytes@)[i],
                '&',
            ) by {
                lemma_u64_text_benign(bytes@[i] as nat, '&');
            }
            lemma_join_free(byte_texts(bytes@), ',', '&');
        },
        Value::Present(inner) => {
            lemma_text_of_clean(*inner);
        },
        Value::Newtype(inner) => {
            lemma_text_of_clean(*inner);
        },
        Value::NewtypeVariant(_, inner) => {
            lemma_text_of_clean(*inner);
        },
        _ => {},
    }
}

/// Every entry a clean, convertible value contributes under a clean key
/// is clean: non-empty, free of `&`, not starting with `?`.
pub proof fn lemma_value_entries_clean(key: Seq<char>, v: Value, skip_if_empty: bool)
    requires
        clean_key(key),
        value_clean(v),
        value_ok(v),
    ensures
        clean_entries(value_entries(key, v, skip_if_empty)),
    decreases v,
{
    match v {
        Value::Absent => {},
        Value::Present(inner) => {
            lemma_value_entries_clean(key, *inner, skip_if_empty);
        },
        Value::Newtype(inner) => {
            lemma_value_entries_clean(key, *inner, skip_if_empty);
        },
        Value::NewtypeVariant(_, inner) => {
            lemma_value_entries_clean(key, *inner, skip_if_empty);
        },
        Value::Sequence(elems) => {
            lemma_seq_entry_clean(key, elems@, skip_if_empty);
        },
        Value::Tuple(elems) => {
            lemma_seq_entry_clean(key, elems@, skip_if_empty);
        },
        Value::Record(fields) => {
            lemma_fields_entries_clean(fields@);
        },
        Value::StructVariant(_, fields) => {
            lemma_fields_entries_clean(fields@);
        },
        Value::Dict(pairs) => {
            lemma_pairs_entries_clean(pairs@);
        },
        _ => {
            lemma_text_of_clean(v);
            let entry = key + seq!['='] + text_of(v).unwrap();
            assert(clean_entry(entry)) by {
                assert(entry[key.len() as int] == '=');
                if key.len() > 0 {
                    assert(entry[0] == key[0]);
                } else {
                    assert(entry[0] == '=');
                }
            }
        },
    }
}

/// The single entry a clean sequence contributes is clean.
proof fn lemma_seq_entry_clean(key: Seq<char>, elems: Seq<Value>, skip_if_empty: bool)
    requires
        clean_key(key),
        elems_clean(elems),
        elems_ok(elems),
    ensures
        clean_entries(seq_entries(key, elems, skip_if_empty)),
{
    if !(elems.len() == 0 && skip_if_empty) {
        assert forall|i: int| 0 <= i < elem_texts(elems).len() implies free_of(
            #[trigger] elem_texts(elems)[i],
            '&',
        ) by {
            lemma_elems_clean_index(elems, i);
            lemma_text_of_clean(elems[i]);
        }
        lemma_join_free(elem_texts(elems), ',', '&');
        let entry = key + seq!['='] + join(elem_texts(elems), ',');
        assert(clean_entry(entry)) by {
            assert(entry[key.len() as int] == '=');
            if key.len() > 0 {
                assert(entry[0] == key[0]);
            } else {
                assert(entry[0] == '=');
            }
        }
    }
}

/// Every entry clean fields contribute is clean.
pub proof fn lemma_fields_entries_clean(fields: Seq<Field>)
    requires
        fields_clean(fields),
        fields_ok(fields),
    ensures
        clean_entries(fields_entries(fields)),
    decreases fields,
{
    if fields.len() > 0 {
        let tail = fields.subrange(1, fields.len() as int);
        lemma_value_entries_clean(fields[0].name@, fields[0].value, fields[0].skip_if_empty);
        lemma_fields_entries_clean(tail);
        let head_entries = value_entries(fields[0].name@, fields[0].value, fields[0].skip_if_empty);
        assert forall|i: int| 0 <= i < fields_entries(fields).len() implies clean_entry(
            #[trigger] fields_entries(fields)[i],
        ) by {
            if i < head_entries.len() {
                assert(fields_entries(fields)[i] == head_entries[i]);
            } else {
                assert(fields_entries(fields)[i] == fields_entries(tail)[i - head_entries.len()]);
            }
        }
    }
}

/// Every entry clean pairs contribute is clean.
proof fn lemma_pairs_entries_clean(pairs: Seq<(Value, Value)>)
    requires
        pairs_clean(pairs),
        pairs_ok(pairs),
    ensures
        clean_entries(pairs_entries(pairs)),
    decreases pairs,
{
    if pairs.len() > 0 {
        let tail = pairs.subrange(1, pairs.len() as int);
        lemma_value_entries_clean(text_of(pairs[0].0).unwrap(), pairs[0].1, false);
        lemma_pairs_entries_clean(tail);
        let head_entries = value_entries(text_of(pairs[0].0).unwrap(), pairs[0].1, false);
        assert forall|i: int| 0 <= i < pairs_entries(pairs).len() implies clean_entry(
            #[trigger] pairs_entries(pairs)[i],
        ) by {
            if i < head_entries.len() {
                assert(pairs_entries(pairs)[i] == head_entries[i]);
            } else {
                assert(pairs_entries(pairs)[i] == pairs_entries(tail)[i - head_entries.len()]);
            }
        }
    }
}

/// A record with zero visitable fields encodes to the empty string: where
/// no field contributes an entry — each being absent, skipped, or a record
/// with none itself — the output is empty, never a stray separator.
pub proof fn law_empty_record_empty_output(fields: Seq<Field>)
    requires
        forall|i: int|
            0 <= i < fields.len() ==> (#[trigger] value_entries(
                fields[i].name@,
                fields[i].value,
                fields[i].skip_if_empty,
            )).len() == 0,
    ensures
        fields_entries(fields).len() == 0,
        join(fields_entries(fields), '&') == Seq::<char>::empty(),
    decreases fields,
{
    if fields.len() > 0 {
        let tail = fields.subrange(1, fields.len() as int);
        assert forall|i: int|
            0 <= i < tail.len() implies (#[trigger] value_entries(
            tail[i].name@,
            tail[i].value,
            tail[i].skip_if_empty,
        )).len() == 0 by {
            assert(tail[i] == fields[i + 1]);
        }
        law_empty_record_empty_output(tail);
        assert(value_entries(fields[0].name@, fields[0].value, fields[0].skip_if_empty).len()
            == 0);
    }
}

/// The output never starts with `?` or `&`, never ends with `&`, and
/// never holds `&&` — for every record whose own keys and texts are free
/// of the separator (a text holding `&` is copied verbatim and excepted).
pub proof fn law_no_stray_separators(fields: Seq<Field>)
    requires
        fields_clean(fields),
        fields_ok(fields),
    ensures
        ({
            let out = join(fields_entries(fields), '&');
            &&& out.len() > 0 ==> out[0] != '?' && out[0] != '&'
            &&& out.len() > 0 ==> out[out.len() - 1] != '&'
            &&& forall|k: int|
                0 <= k < out.len() - 1 ==> !(#[trigger] out[k] == '&' && out[k + 1] == '&')
        }),
{
    let entries = fields_entries(fields);
    lemma_fields_entries_clean(fields);
    lemma_join_adjacency(entries, '&');
    if entries.len() > 0 {
        assert(clean_entry(entries[0]));
        assert(entries[0][0] != '&');
    }
}

/// An absent optional is invisible: it contributes no entry, key and all.
pub proof fn law_absent_invisible(key: Seq<char>, skip_if_empty: bool)
    ensures
        value_entries(key, Value::Absent, skip_if_empty) == Seq::<Seq<char>>::empty(),
{
}

/// A present optional is transparent: it encodes exactly as the inner
/// value does under the same key.
pub proof fn law_present_transparent(key: Seq<char>, v: Value, skip_if_empty: bool)
    requires
        v is Present,
    ensures
        v matches Value::Present(inner) ==> value_entries(key, v, skip_if_empty) == value_entries(
            key,
            *inner,
            skip_if_empty,
        ),
{
}

/// A non-empty sequence contributes exactly one entry — its elements'
/// canonical texts comma-joined under the shared key — and for three
/// elements that entry's value reads `a,b,c`: no trailing comma.
pub proof fn law_sequence_single_entry(key: Seq<char>, v: Value, skip_if_empty: bool)
    requires
        v is Sequence,
        value_ok(v),
        v matches Value::Sequence(elems) ==> elems@.len() > 0,
    ensures
        v matches Value::Sequence(elems) ==> value_entries(key, v, skip_if_empty) == seq![
            key + seq!['='] + join(elem_texts(elems@), ','),
        ],
        v matches Value::Sequence(elems) ==> (elems@.len() == 3 ==> join(elem_texts(elems@), ',')
            == text_of(elems@[0]).unwrap() + seq![','] + text_of(elems@[1]).unwrap() + seq![',']
            + text_of(elems@[2]).unwrap()),
{
    match v {
        Value::Sequence(elems) => {
            if elems@.len() == 3 {
                let ts = elem_texts(elems@);
                let t12 = ts.subrange(1, 3);
                let t2 = t12.subrange(1, 2);
                assert(t12[0] == ts[1] && t12[1] == ts[2] && t2[0] == ts[2]);
                assert(join(t2, ',') == ts[2]);
                assert(join(t12, ',') == ts[1] + seq![','] + ts[2]);
                assert(join(ts, ',') =~= ts[0] + seq![','] + ts[1] + seq![','] + ts[2]);
            }
        },
        _ => {},
    }
}

/// Output order is declaration order: the fields on the left contribute
/// all their entries before any field on the right, whatever the types of
/// the fields involved.
pub proof fn law_field_order_append(left: Seq<Field>, right: Seq<Field>)
    ensures
        fields_entries(left + right) == fields_entries(left) + fields_entries(right),
        fields_ok(left + right) <==> fields_ok(left) && fields_ok(right),
{
    lemma_fields_entries_append(left, right);
}

} // verus!
