//! The mathematical model of the encoder.
//!
//! Three layers: the canonical text of a scalar value ([`text_of`]), the
//! ordered list of `key=text` entries a value contributes under a key
//! ([`value_entries`]), and the final output, the entries joined with `&`
//! ([`encoded_text`]).  The executable encoder is specified against these
//! functions, and the library's laws are stated over them.

use crate::value::{Field, Value};
use vstd::prelude::*;

verus! {

/// The decimal digit character for `d < 10`.
pub open spec fn dec_digit(d: nat) -> char {
    if d == 0 {
        '0'
    } else if d == 1 {
        '1'
    } else if d == 2 {
        '2'
    } else if d == 3 {
        '3'
    } else if d == 4 {
        '4'
    } else if d == 5 {
        '5'
    } else if d == 6 {
        '6'
    } else if d == 7 {
        '7'
    } else if d == 8 {
        '8'
    } else {
        '9'
    }
}

/// The decimal rendering of a natural number, most significant digit first,
/// no sign and no leading zeros (a single `0` for zero).
pub open spec fn u64_text(n: nat) -> Seq<char>
    decreases n,
{
    if n < 10 {
        seq![dec_digit(n)]
    } else {
        u64_text(n / 10).push(dec_digit(n % 10))
    }
}

/// The decimal rendering of a signed integer: a leading `-` for negatives.
pub open spec fn i64_text(i: int) -> Seq<char> {
    if i < 0 {
        seq!['-'] + u64_text((-i) as nat)
    } else {
        u64_text(i as nat)
    }
}

/// `true` or `false`.
pub open spec fn bool_text(b: bool) -> Seq<char> {
    if b {
        seq!['t', 'r', 'u', 'e']
    } else {
        seq!['f', 'a', 'l', 's', 'e']
    }
}

/// The parts joined with exactly one separator between consecutive parts:
/// nothing for no parts, and never a leading or trailing separator.
pub open spec fn join(parts: Seq<Seq<char>>, sep: char) -> Seq<char>
    decreases parts.len(),
{
    if parts.len() == 0 {
        Seq::empty()
    } else if parts.len() == 1 {
        parts[0]
    } else {
        parts[0] + seq![sep] + join(parts.subrange(1, parts.len() as int), sep)
    }
}

/// The decimal texts of a byte sequence, element by element.
pub open spec fn byte_texts(bytes: Seq<u8>) -> Seq<Seq<char>> {
    bytes.map_values(|b: u8| u64_text(b as nat))
}

/// The canonical text of a value that has one; `None` where the value is
/// composite (or an absent optional) and has no single text form.
pub open spec fn text_of(v: Value) -> Option<Seq<char>>
    decreases v,
{
    match v {
        Value::Bool(b) => Some(bool_text(b)),
        Value::I64(i) => Some(i64_text(i as int)),
        Value::U64(n) => Some(u64_text(n as nat)),
        Value::Char(c) => Some(seq![c]),
        Value::Text(s) => Some(s@),
        Value::Bytes(bytes) => Some(join(byte_texts(bytes@), ',')),
        Value::Unit => Some(Seq::empty()),
        Value::UnitVariant(name) => Some(name@),
        Value::Present(inner) => text_of(*inner),
        Value::Newtype(inner) => text_of(*inner),
        Value::NewtypeVariant(_, inner) => text_of(*inner),
        _ => None,
    }
}

/// Whether every element of a sequence has a canonical text.
pub open spec fn elems_ok(elems: Seq<Value>) -> bool {
    forall|i: int| 0 <= i < elems.len() ==> text_of(elems[i]) is Some
}

/// The canonical texts of a sequence's elements, in order.
pub open spec fn elem_texts(elems: Seq<Value>) -> Seq<Seq<char>> {
    elems.map_values(|v: Value| text_of(v).unwrap())
}

/// Whether every canonical-text conversion beneath the value succeeds, so
/// that encoding it cannot fail.
pub open spec fn value_ok(v: Value) -> bool
    decreases v,
{
    match v {
        Value::Present(inner) => value_ok(*inner),
        Value::Newtype(inner) => value_ok(*inner),
        Value::NewtypeVariant(_, inner) => value_ok(*inner),
        Value::Sequence(elems) => elems_ok(elems@),
        Value::Tuple(elems) => elems_ok(elems@),
        Value::Record(fields) => fields_ok(fields@),
        Value::StructVariant(_, fields) => fields_ok(fields@),
        Value::Dict(pairs) => pairs_ok(pairs@),
        _ => true,
    }
}

/// Whether every field of a record encodes without failure.
pub open spec fn fields_ok(fields: Seq<Field>) -> bool
    decreases fields,
{
    fields.len() == 0 || (value_ok(fields[0].value) && fields_ok(
        fields.subrange(1, fields.len() as int),
    ))
}

/// Whether every pair of a map encodes without failure: each key must have
/// a canonical text, and each value must encode.
pub open spec fn pairs_ok(pairs: Seq<(Value, Value)>) -> bool
    decreases pairs,
{
    pairs.len() == 0 || (text_of(pairs[0].0) is Some && value_ok(pairs[0].1) && pairs_ok(
        pairs.subrange(1, pairs.len() as int),
    ))
}

/// The entries a sequence value contributes under a key: one comma-joined
/// entry, or none at all for an empty sequence marked skip-when-empty.
pub open spec fn seq_entries(key: Seq<char>, elems: Seq<Value>, skip_if_empty: bool) -> Seq<
    Seq<char>,
> {
    if elems.len() == 0 && skip_if_empty {
        Seq::empty()
    } else {
        seq![key + seq!['='] + join(elem_texts(elems), ',')]
    }
}

/// The ordered `key=text` entries a value contributes under a key.
///
/// An absent optional contributes none; transparent wrappers defer to the
/// inner value; nested records flatten into entries under their own bare
/// field names; everything else is one entry.
pub open spec fn value_entries(key: Seq<char>, v: Value, skip_if_empty: bool) -> Seq<Seq<char>>
    decreases v,
{
    match v {
        Value::Absent => Seq::empty(),
        Value::Present(inner) => value_entries(key, *inner, skip_if_empty),
        Value::Newtype(inner) => value_entries(key, *inner, skip_if_empty),
        Value::NewtypeVariant(_, inner) => value_entries(key, *inner, skip_if_empty),
        Value::Sequence(elems) => seq_entries(key, elems@, skip_if_empty),
        Value::Tuple(elems) => seq_entries(key, elems@, skip_if_empty),
        Value::Record(fields) => fields_entries(fields@),
        Value::StructVariant(_, fields) => fields_entries(fields@),
        Value::Dict(pairs) => pairs_entries(pairs@),
        _ => seq![key + seq!['='] + text_of(v).unwrap()],
    }
}

/// The entries of a record's fields, concatenated in declaration order.
pub open spec fn fields_entries(fields: Seq<Field>) -> Seq<Seq<char>>
    decreases fields,
{
    if fields.len() == 0 {
        Seq::empty()
    } else {
        value_entries(fields[0].name@, fields[0].value, fields[0].skip_if_empty)
            + fields_entries(fields.subrange(1, fields.len() as int))
    }
}

/// The entries of a map's pairs: each value's entries under the canonical
/// text of its key, concatenated in order.
pub open spec fn pairs_entries(pairs: Seq<(Value, Value)>) -> Seq<Seq<char>>
    decreases pairs,
{
    if pairs.len() == 0 {
        Seq::empty()
    } else {
        value_entries(text_of(pairs[0].0).unwrap(), pairs[0].1, false) + pairs_entries(
            pairs.subrange(1, pairs.len() as int),
        )
    }
}

/// The canonical query-string of a record-shaped value whose conversions
/// all succeed: its entries joined with `&`.
pub open spec fn encoded_text(v: Value) -> Seq<char> {
    join(fields_entries(v.record_fields()), '&')
}

/// The views of a list of strings, element by element.
pub open spec fn str_views(strs: Seq<String>) -> Seq<Seq<char>> {
    strs.map_values(|s: String| s@)
}

/// Appending one part to a non-empty list appends one separator and the
/// part to the joined text; to an empty list, just the part.
pub proof fn lemma_join_push(parts: Seq<Seq<char>>, part: Seq<char>, sep: char)
    ensures
        parts.len() == 0 ==> join(parts.push(part), sep) == part,
        parts.len() > 0 ==> join(parts.push(part), sep) == join(parts, sep) + seq![sep] + part,
    decreases parts.len(),
{
    if parts.len() == 0 {
        assert(join(parts.push(part), sep) == parts.push(part)[0]);
    } else {
        let rest = parts.subrange(1, parts.len() as int);
        assert(parts.push(part).subrange(1, parts.push(part).len() as int) =~= rest.push(part));
        lemma_join_push(rest, part, sep);
        assert(join(parts.push(part), sep) =~= join(parts, sep) + seq![sep] + part);
    }
}

/// Entries of concatenated field lists are the concatenated entries: the
/// output order is the declaration order, whatever the fields hold.
pub proof fn lemma_fields_entries_append(left: Seq<Field>, right: Seq<Field>)
    ensures
        fields_entries(left + right) == fields_entries(left) + fields_entries(right),
        fields_ok(left + right) <==> fields_ok(left) && fields_ok(right),
    decreases left.len(),
{
    if left.len() == 0 {
        assert(left + right =~= right);
        assert(fields_entries(left) + fields_entries(right) =~= fields_entries(right));
    } else {
        let tail = left.subrange(1, left.len() as int);
        assert((left + right).subrange(1, (left + right).len() as int) =~= tail + right);
        lemma_fields_entries_append(tail, right);
        assert(fields_entries(left + right) =~= fields_entries(left) + fields_entries(right));
    }
}

/// Entries of concatenated pair lists are the concatenated entries.
pub proof fn lemma_pairs_entries_append(left: Seq<(Value, Value)>, right: Seq<(Value, Value)>)
    ensures
        pairs_entries(left + right) == pairs_entries(left) + pairs_entries(right),
        pairs_ok(left + right) <==> pairs_ok(left) && pairs_ok(right),
    decreases left.len(),
{
    if left.len() == 0 {
        assert(left + right =~= right);
        assert(pairs_entries(left) + pairs_entries(right) =~= pairs_entries(right));
    } else {
        let tail = left.subrange(1, left.len() as int);
        assert((left + right).subrange(1, (left + right).len() as int) =~= tail + right);
        lemma_pairs_entries_append(tail, right);
        assert(pairs_entries(left + right) =~= pairs_entries(left) + pairs_entries(right));
    }
}

} // verus!
