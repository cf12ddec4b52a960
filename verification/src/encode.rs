//! The query-string encoder: the executable consumer of the traversal
//! protocol, specified against the model in [`crate::model`].

use crate::errors::{Error, InnerError};
use crate::model::{
    bool_text, byte_texts, dec_digit, elem_texts, elems_ok, encoded_text, fields_entries,
    fields_ok, i64_text, join, lemma_fields_entries_append, lemma_join_push,
    lemma_pairs_entries_append, pairs_entries, pairs_ok, seq_entries, str_views, text_of, u64_text,
    value_entries, value_ok,
};
use crate::value::{Field, Value};
use vstd::prelude::*;

verus! {

/// Relies on `String::push`: appends exactly the given character.
#[verifier::external_body]
fn push_char(s: &mut String, c: char)
    ensures
        final(s)@ == old(s)@.push(c),
{
    s.push(c);
}

/// The one-character text of a decimal digit.
fn digit_str(d: u64) -> (r: &'static str)
    requires
        d < 10,
    ensures
        r@ == seq![dec_digit(d as nat)],
{
    proof {
        reveal_strlit("0");
        reveal_strlit("1");
        reveal_strlit("2");
        reveal_strlit("3");
        reveal_strlit("4");
        reveal_strlit("5");
        reveal_strlit("6");
        reveal_strlit("7");
        reveal_strlit("8");
        reveal_strlit("9");
    }
    match d {
        0 => "0",
        1 => "1",
        2 => "2",
        3 => "3",
        4 => "4",
        5 => "5",
        6 => "6",
        7 => "7",
        8 => "8",
        _ => "9",
    }
}

/// The canonical decimal text of an unsigned integer.
pub fn u64_string(n: u64) -> (r: String)
    ensures
        r@ == u64_text(n as nat),
    decreases n,
{
    if n < 10 {
        digit_str(n).to_owned()
    } else {
        let mut s = u64_string(n / 10);
        s.append(digit_str(n % 10));
        proof {
            assert(s@ =~= u64_text(n as nat));
        }
        s
    }
}

/// The canonical decimal text of a signed integer.
pub fn i64_string(n: i64) -> (r: String)
    ensures
        r@ == i64_text(n as int),
{
    if n >= 0 {
        u64_string(n as u64)
    } else {
        let magnitude: u64 = ((-(n + 1)) as u64) + 1;
        proof {
            reveal_strlit("-");
        }
        let mut s = "-".to_owned();
        s.append(u64_string(magnitude).as_str());
        proof {
            assert(magnitude as nat == (-(n as int)) as nat);
            assert(s@ =~= i64_text(n as int));
        }
        s
    }
}

/// The canonical text of a boolean.
fn bool_str(b: bool) -> (r: &'static str)
    ensures
        r@ == bool_text(b),
{
    proof {
        reveal_strlit("true");
        reveal_strlit("false");
    }
    if b {
        proof {
            assert("true"@ =~= bool_text(true));
        }
        "true"
    } else {
        proof {
            assert("false"@ =~= bool_text(false));
        }
        "false"
    }
}

/// The one-character text of a character value.
fn char_string(c: char) -> (r: String)
    ensures
        r@ == seq![c],
{
    let mut s = String::new();
    push_char(&mut s, c);
    proof {
        assert(s@ =~= seq![c]);
    }
    s
}

/// The comma-joined decimal texts of a byte sequence.
fn bytes_string(bytes: &Vec<u8>) -> (r: String)
    ensures
        r@ == join(byte_texts(bytes@), ','),
{
    let mut s = String::new();
    for i in 0..bytes.len()
        invariant
            s@ == join(byte_texts(bytes@.subrange(0, i as int)), ','),
    {
        proof {
            assert(byte_texts(bytes@.subrange(0, i + 1)) =~= byte_texts(
                bytes@.subrange(0, i as int),
            ).push(u64_text(bytes@[i as int] as nat)));
            lemma_join_push(
                byte_texts(bytes@.subrange(0, i as int)),
                u64_text(bytes@[i as int] as nat),
                ',',
            );
        }
        if i > 0 {
            push_char(&mut s, ',');
        }
        s.append(u64_string(bytes[i] as u64).as_str());
        proof {
            assert(s@ =~= join(byte_texts(bytes@.subrange(0, i + 1)), ','));
        }
    }
    proof {
        assert(bytes@.subrange(0, bytes@.len() as int) =~= bytes@);
    }
    s
}

/// The canonical text of a value that has one, and the formatting error
/// for one that has none.
fn scalar_string(v: &Value) -> (r: Result<String, Error>)
    ensures
        r matches Ok(s) ==> text_of(*v) == Some(s@),
        r is Err ==> text_of(*v) is None,
        r matches Err(e) ==> e.inner is Fmt,
    decreases *v,
{
    match v {
        Value::Bool(b) => Ok(bool_str(*b).to_owned()),
        Value::I64(n) => Ok(i64_string(*n)),
        Value::U64(n) => Ok(u64_string(*n)),
        Value::Char(c) => Ok(char_string(*c)),
        Value::Text(s) => Ok(s.as_str().to_owned()),
        Value::Bytes(bytes) => Ok(bytes_string(bytes)),
        Value::Unit => Ok(String::new()),
        Value::UnitVariant(name) => Ok(name.as_str().to_owned()),
        Value::Present(inner) => scalar_string(&**inner),
        Value::Newtype(inner) => scalar_string(&**inner),
        Value::NewtypeVariant(_, inner) => scalar_string(&**inner),
        _ => Err(Error::formatting()),
    }
}

/// Appends the entry `key=text` to the collected entries.
fn push_kv(key: &str, text: &str, out: &mut Vec<String>)
    ensures
        str_views(final(out)@) == str_views(old(out)@).push(key@ + seq!['='] + text@),
{
    proof {
        reveal_strlit("=");
    }
    let mut s = key.to_owned();
    s.append("=");
    s.append(text);
    out.push(s);
    proof {
        assert("="@ =~= seq!['=']);
        assert(str_views(out@) =~= str_views(old(out)@).push(key@ + seq!['='] + text@));
    }
}

/// Appends the one entry a sequence contributes — its elements' canonical
/// texts comma-joined under the key — or nothing for an empty sequence
/// marked skip-when-empty.
fn push_seq_entry(key: &str, elems: &Vec<Value>, skip_if_empty: bool, out: &mut Vec<String>) -> (r:
    Result<(), Error>)
    ensures
        r is Ok ==> elems_ok(elems@) && str_views(final(out)@) == str_views(old(out)@) + seq_entries(
            key@,
            elems@,
            skip_if_empty,
        ),
        r is Err ==> !elems_ok(elems@),
        r matches Err(e) ==> e.inner is Fmt,
{
    if elems.len() == 0 && skip_if_empty {
        proof {
            assert(str_views(out@) =~= str_views(old(out)@) + seq_entries(
                key@,
                elems@,
                skip_if_empty,
            ));
        }
        return Ok(());
    }
    let mut joined = String::new();
    for i in 0..elems.len()
        invariant
            forall|j: int| 0 <= j < i ==> text_of(elems@[j]) is Some,
            joined@ == join(elem_texts(elems@.subrange(0, i as int)), ','),
    {
        match scalar_string(&elems[i]) {
            Ok(text) => {
                proof {
                    assert(elem_texts(elems@.subrange(0, i + 1)) =~= elem_texts(
                        elems@.subrange(0, i as int),
                    ).push(text@));
                    lemma_join_push(elem_texts(elems@.subrange(0, i as int)), text@, ',');
                }
                if i > 0 {
                    push_char(&mut joined, ',');
                }
                joined.append(text.as_str());
                proof {
                    assert(joined@ =~= join(elem_texts(elems@.subrange(0, i + 1)), ','));
                }
            },
            Err(e) => {
                proof {
                    assert(!elems_ok(elems@)) by {
                        assert(text_of(elems@[i as int]) is None);
                    }
                }
                return Err(e);
            },
        }
    }
    proof {
        assert(elems@.subrange(0, elems@.len() as int) =~= elems@);
    }
    push_kv(key, joined.as_str(), out);
    proof {
        assert(str_views(out@) =~= str_views(old(out)@) + seq_entries(key@, elems@, skip_if_empty));
    }
    Ok(())
}

/// Appends the entries one value contributes under a key, reacting to the
/// shape the value declares.
fn push_value_entries(key: &str, v: &Value, skip_if_empty: bool, out: &mut Vec<String>) -> (r:
    Result<(), Error>)
    ensures
        r is Ok ==> value_ok(*v) && str_views(final(out)@) == str_views(old(out)@) + value_entries(
            key@,
            *v,
            skip_if_empty,
        ),
        r is Err ==> !value_ok(*v),
        r matches Err(e) ==> e.inner is Fmt,
    decreases *v,
{
    match v {
        Value::Absent => {
            proof {
                assert(str_views(out@) =~= str_views(old(out)@) + value_entries(
                    key@,
                    *v,
                    skip_if_empty,
                ));
            }
            Ok(())
        },
        Value::Present(inner) => push_value_entries(key, &**inner, skip_if_empty, out),
        Value::Newtype(inner) => push_value_entries(key, &**inner, skip_if_empty, out),
        Value::NewtypeVariant(_, inner) => push_value_entries(key, &**inner, skip_if_empty, out),
        Value::Sequence(elems) => push_seq_entry(key, elems, skip_if_empty, out),
        Value::Tuple(elems) => push_seq_entry(key, elems, skip_if_empty, out),
        Value::Record(fields) => push_fields_entries(fields, out),
        Value::StructVariant(_, fields) => push_fields_entries(fields, out),
        Value::Dict(pairs) => push_pairs_entries(pairs, out),
        _ => {
            match scalar_string(v) {
                Ok(text) => {
                    push_kv(key, text.as_str(), out);
                    proof {
                        assert(str_views(out@) =~= str_views(old(out)@) + value_entries(
                            key@,
                            *v,
                            skip_if_empty,
                        ));
                    }
                    Ok(())
                },
                Err(e) => {
                    proof {
                        assert(text_of(*v) is Some);
                    }
                    Err(e)
                },
            }
        },
    }
}

/// Appends the entries of a record's fields, one field at a time, in
/// declaration order.
fn push_fields_entries(fields: &Vec<Field>, out: &mut Vec<String>) -> (r: Result<(), Error>)
    ensures
        r is Ok ==> fields_ok(fields@) && str_views(final(out)@) == str_views(old(out)@) + fields_entries(
            fields@,
        ),
        r is Err ==> !fields_ok(fields@),
        r matches Err(e) ==> e.inner is Fmt,
    decreases fields@,
{
    let ghost initial = out@;
    for i in 0..fields.len()
        invariant
            fields_ok(fields@.subrange(0, i as int)),
            str_views(out@) == str_views(initial) + fields_entries(fields@.subrange(0, i as int)),
    {
        let field = &fields[i];
        let ghost prefix = fields@.subrange(0, i as int);
        let ghost one = seq![fields@[i as int]];
        proof {
            lemma_fields_entries_append(prefix, one);
            assert(one.subrange(1, 1) =~= Seq::<Field>::empty());
            assert(fields_entries(one.subrange(1, 1)) == Seq::<Seq<char>>::empty());
            assert(fields_ok(Seq::<Field>::empty()));
            assert(fields_entries(one) =~= value_entries(
                one[0].name@,
                one[0].value,
                one[0].skip_if_empty,
            ));
            assert(fields_ok(one) == value_ok(one[0].value));
            assert(fields@.subrange(0, i + 1) =~= prefix + one);
        }
        match push_value_entries(field.name.as_str(), &field.value, field.skip_if_empty, out) {
            Ok(()) => {
                proof {
                    assert(str_views(out@) =~= str_views(initial) + fields_entries(
                        fields@.subrange(0, i + 1),
                    ));
                }
            },
            Err(e) => {
                proof {
                    let rest = fields@.subrange(i as int, fields@.len() as int);
                    assert(fields@ =~= prefix + rest);
                    lemma_fields_entries_append(prefix, rest);
                    assert(!value_ok(rest[0].value));
                }
                return Err(e);
            },
        }
    }
    proof {
        assert(fields@.subrange(0, fields@.len() as int) =~= fields@);
    }
    Ok(())
}

/// Appends the entries of a map's pairs: each value under the canonical
/// text of its key, in order.
fn push_pairs_entries(pairs: &Vec<(Value, Value)>, out: &mut Vec<String>) -> (r: Result<(), Error>)
    ensures
        r is Ok ==> pairs_ok(pairs@) && str_views(final(out)@) == str_views(old(out)@) + pairs_entries(
            pairs@,
        ),
        r is Err ==> !pairs_ok(pairs@),
        r matches Err(e) ==> e.inner is Fmt,
    decreases pairs@,
{
    let ghost initial = out@;
    for i in 0..pairs.len()
        invariant
            pairs_ok(pairs@.subrange(0, i as int)),
            str_views(out@) == str_views(initial) + pairs_entries(pairs@.subrange(0, i as int)),
    {
        let ghost prefix = pairs@.subrange(0, i as int);
        let ghost one = seq![pairs@[i as int]];
        let ghost rest = pairs@.subrange(i as int, pairs@.len() as int);
        proof {
            lemma_pairs_entries_append(prefix, one);
            assert(one.subrange(1, 1) =~= Seq::<(Value, Value)>::empty());
            assert(pairs_entries(one.subrange(1, 1)) == Seq::<Seq<char>>::empty());
            assert(pairs_ok(Seq::<(Value, Value)>::empty()));
            assert(pairs_entries(one) =~= value_entries(text_of(one[0].0).unwrap(), one[0].1, false));
            assert(pairs_ok(one) == (text_of(one[0].0) is Some && value_ok(one[0].1)));
            assert(pairs@.subrange(0, i + 1) =~= prefix + one);
            assert(pairs@ =~= prefix + rest);
            lemma_pairs_entries_append(prefix, rest);
        }
        let key_text = match scalar_string(&pairs[i].0) {
            Ok(text) => text,
            Err(e) => {
                proof {
                    assert(text_of(rest[0].0) is None);
                }
                return Err(e);
            },
        };
        match push_value_entries(key_text.as_str(), &pairs[i].1, false, out) {
            Ok(()) => {
                proof {
                    assert(str_views(out@) =~= str_views(initial) + pairs_entries(
                        pairs@.subrange(0, i + 1),
                    ));
                }
            },
            Err(e) => {
                proof {
                    assert(!value_ok(rest[0].1));
                }
                return Err(e);
            },
        }
    }
    proof {
        assert(pairs@.subrange(0, pairs@.len() as int) =~= pairs@);
    }
    Ok(())
}

/// The collected parts joined with exactly one separator between
/// consecutive parts.
pub fn join_with(parts: &Vec<String>, sep: char) -> (r: String)
    ensures
        r@ == join(str_views(parts@), sep),
{
    let mut s = String::new();
    for i in 0..parts.len()
        invariant
            s@ == join(str_views(parts@).subrange(0, i as int), sep),
    {
        proof {
            assert(str_views(parts@).subrange(0, i + 1) =~= str_views(parts@).subrange(
                0,
                i as int,
            ).push(parts@[i as int]@));
            lemma_join_push(str_views(parts@).subrange(0, i as int), parts@[i as int]@, sep);
        }
        if i > 0 {
            push_char(&mut s, sep);
        }
        s.append(parts[i].as_str());
        proof {
            assert(s@ =~= join(str_views(parts@).subrange(0, i + 1), sep));
        }
    }
    proof {
        assert(str_views(parts@).subrange(0, str_views(parts@).len() as int) =~= str_views(
            parts@,
        ));
    }
    s
}

/// The message of the structural error a non-record top-level value is
/// rejected with.
pub open spec fn top_level_message() -> Seq<char> {
    "top-level value is not a record"@
}

/// Encodes a record's fields: collects their entries and joins them with
/// `&`, so no separator ever leads or trails.
fn encode_fields(fields: &Vec<Field>) -> (r: Result<String, Error>)
    ensures
        r is Ok <==> fields_ok(fields@),
        r matches Ok(s) ==> s@ == join(fields_entries(fields@), '&'),
        r matches Err(e) ==> e.inner is Fmt,
{
    let mut entries: Vec<String> = Vec::new();
    match push_fields_entries(fields, &mut entries) {
        Ok(()) => {
            proof {
                assert(str_views(entries@) =~= fields_entries(fields@));
            }
            Ok(join_with(&entries, '&'))
        },
        Err(e) => Err(e),
    }
}

/// The sole entry point: the canonical query-string of a record-shaped
/// value, or the error that stopped the traversal.
///
/// Exactly the record-shaped values whose canonical-text conversions all
/// succeed encode to `Ok`; a non-record top level is a structural error,
/// and a failed conversion is a formatting error.  On success the output
/// is the fields' entries joined with `&`, in declaration order.
pub fn encode(v: &Value) -> (r: Result<String, Error>)
    ensures
        r is Ok <==> v.is_record_shaped() && value_ok(*v),
        r matches Ok(s) ==> s@ == encoded_text(*v),
        !v.is_record_shaped() ==> (r matches Err(e) && e.inner matches InnerError::Custom(m)
            && m@ == top_level_message()),
        v.is_record_shaped() && !value_ok(*v) ==> (r matches Err(e) && e.inner is Fmt),
{
    match v {
        Value::Record(fields) => encode_fields(fields),
        Value::StructVariant(_, fields) => encode_fields(fields),
        _ => Err(Error::custom("top-level value is not a record")),
    }
}

} // verus!
