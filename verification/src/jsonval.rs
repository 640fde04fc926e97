//! The library's own JSON value tree, with the tolerant coercions the
//! importer applies to bank rows, and a verified serializer that renders a
//! value back to JSON text.

use vstd::prelude::*;
use vstd::slice::slice_subrange;
use crate::textio::push_char;

verus! {

/// One JSON value. Numbers that are not 64-bit integers are carried as
/// their original text in `Num`.
pub enum Jval {
    Null,
    Bool(bool),
    Int(i64),
    Num(String),
    Str(String),
    Arr(Vec<Jval>),
    Obj(Vec<(String, Jval)>),
}

// ------------------------------------------------------------------
// Tolerant coercions (the importer's defaults for missing or
// wrong-typed fields)
// ------------------------------------------------------------------

/// The value of the first field with the given name, if any.
pub open spec fn j_field(fields: Seq<(String, Jval)>, name: Seq<char>) -> Option<Jval>
    decreases fields.len(),
{
    if fields.len() == 0 {
        Option::None
    } else if fields[0].0@ == name {
        Option::Some(fields[0].1)
    } else {
        j_field(fields.drop_first(), name)
    }
}

/// Field lookup on an object's field vector.
pub fn get_field<'a>(fields: &'a Vec<(String, Jval)>, name: &str) -> (r: Option<&'a Jval>)
    ensures
        match r {
            Option::Some(j) => j_field(fields@, name@) == Option::Some(*j),
            Option::None => j_field(fields@, name@) is None,
        },
{
    let n = fields.len();
    let mut i: usize = 0;
    proof {
        assert(fields@.skip(0) =~= fields@);
    }
    while i < n
        invariant
            n == fields@.len(),
            i <= n,
            j_field(fields@, name@) == j_field(fields@.skip(i as int), name@),
        decreases n - i,
    {
        proof {
            assert(fields@.skip(i as int)[0] == fields@[i as int]);
            assert(fields@.skip(i as int).drop_first() =~= fields@.skip(i as int + 1));
        }
        if crate::text::str_eq(fields[i].0.as_str(), name) {
            return Some(&fields[i].1);
        }
        i += 1;
    }
    proof {
        assert(fields@.skip(n as int) =~= Seq::<(String, Jval)>::empty());
    }
    None
}

// ------------------------------------------------------------------
// Serialization back to JSON text
// ------------------------------------------------------------------

/// The hex digit for a value below 16.
pub open spec fn hex_digit(d: int) -> char {
    if d < 10 {
        (0x30 + d) as char
    } else {
        (0x57 + d) as char
    }
}

/// The escaped form of one character inside a JSON string literal.
pub open spec fn esc_char(c: char) -> Seq<char> {
    if c == '"' {
        seq!['\\', '"']
    } else if c == '\\' {
        seq!['\\', '\\']
    } else if (c as u32) < 0x20 {
        seq!['\\', 'u', '0', '0', hex_digit((c as u32) as int / 16), hex_digit(
            (c as u32) as int % 16,
        )]
    } else {
        seq![c]
    }
}

/// The escaped form of a whole string body.
pub open spec fn esc(s: Seq<char>) -> Seq<char>
    decreases s.len(),
{
    if s.len() == 0 {
        Seq::empty()
    } else {
        esc_char(s[0]) + esc(s.drop_first())
    }
}

proof fn lemma_esc_push(s: Seq<char>, c: char)
    ensures
        esc(s.push(c)) == esc(s) + esc_char(c),
    decreases s.len(),
{
    if s.len() == 0 {
        assert(s.push(c)[0] == c);
        assert(s.push(c).drop_first() =~= Seq::<char>::empty());
        assert(esc(s.push(c)) == esc_char(c) + esc(Seq::<char>::empty()));
        assert(esc(s.push(c)) =~= esc(s) + esc_char(c));
    } else {
        assert(s.push(c).drop_first() =~= s.drop_first().push(c));
        lemma_esc_push(s.drop_first(), c);
        assert(s.push(c)[0] == s[0]);
        assert(esc(s.push(c)) =~= esc(s) + esc_char(c));
    }
}

/// A JSON string literal: quotes around the escaped body.
pub open spec fn ser_str(s: Seq<char>) -> Seq<char> {
    seq!['"'] + esc(s) + seq!['"']
}

/// Decimal digits of a non-negative number.
pub open spec fn dec_str(n: nat) -> Seq<char>
    decreases n,
{
    if n < 10 {
        seq![(0x30 + n) as char]
    } else {
        dec_str(n / 10) + seq![(0x30 + (n % 10)) as char]
    }
}

/// The JSON text of a 64-bit integer.
pub open spec fn ser_int(v: i64) -> Seq<char> {
    if v >= 0 {
        dec_str(v as nat)
    } else {
        seq!['-'] + dec_str((-(v as int)) as nat)
    }
}

/// The JSON text of a value.
pub open spec fn ser(j: Jval) -> Seq<char>
    decreases j,
{
    match j {
        Jval::Null => seq!['n', 'u', 'l', 'l'],
        Jval::Bool(b) => if b {
            seq!['t', 'r', 'u', 'e']
        } else {
            seq!['f', 'a', 'l', 's', 'e']
        },
        Jval::Int(v) => ser_int(v),
        Jval::Num(s) => s@,
        Jval::Str(s) => ser_str(s@),
        Jval::Arr(v) => seq!['['] + ser_arr(v@) + seq![']'],
        Jval::Obj(f) => seq!['{'] + ser_fields(f@) + seq!['}'],
    }
}

/// The comma-joined JSON texts of array elements.
pub open spec fn ser_arr(elems: Seq<Jval>) -> Seq<char>
    decreases elems,
{
    if elems.len() == 0 {
        Seq::empty()
    } else if elems.len() == 1 {
        ser(elems[0])
    } else {
        ser(elems[0]) + seq![','] + ser_arr(elems.drop_first())
    }
}

/// The comma-joined `"key":value` texts of object fields.
pub open spec fn ser_fields(fields: Seq<(String, Jval)>) -> Seq<char>
    decreases fields,
{
    if fields.len() == 0 {
        Seq::empty()
    } else if fields.len() == 1 {
        ser_str(fields[0].0@) + seq![':'] + ser(fields[0].1)
    } else {
        ser_str(fields[0].0@) + seq![':'] + ser(fields[0].1) + seq![','] + ser_fields(
            fields.drop_first(),
        )
    }
}

fn hex_digit_exec(d: u32) -> (r: char)
    requires
        d < 16,
    ensures
        r == hex_digit(d as int),
{
    if d < 10 {
        ((0x30 + d) as u8) as char
    } else {
        ((0x57 + d) as u8) as char
    }
}

/// Appends the escaped body of `s` to `out`.
fn push_escaped(out: &mut String, s: &str)
    ensures
        final(out)@ == old(out)@ + esc(s@),
{
    let chars = crate::text::str_to_chars(s);
    let n = chars.len();
    let mut i: usize = 0;
    proof {
        assert(old(out)@ + esc(s@.take(0)) =~= old(out)@);
    }
    while i < n
        invariant
            n == chars@.len(),
            chars@ == s@,
            i <= n,
            out@ == old(out)@ + esc(s@.take(i as int)),
        decreases n - i,
    {
        let c = chars[i];
        proof {
            lemma_esc_push(s@.take(i as int), c);
            assert(s@.take(i as int).push(c) =~= s@.take(i as int + 1));
        }
        let ghost pre = out@;
        if c == '"' {
            push_char(out, '\\');
            push_char(out, '"');
        } else if c == '\\' {
            push_char(out, '\\');
            push_char(out, '\\');
        } else if (c as u32) < 0x20 {
            push_char(out, '\\');
            push_char(out, 'u');
            push_char(out, '0');
            push_char(out, '0');
            push_char(out, hex_digit_exec((c as u32) / 16));
            push_char(out, hex_digit_exec((c as u32) % 16));
        } else {
            push_char(out, c);
        }
        proof {
            assert(out@ =~= pre + esc_char(c));
            assert(out@ =~= old(out)@ + esc(s@.take(i as int + 1)));
        }
        i += 1;
    }
    proof {
        assert(s@.take(n as int) =~= s@);
    }
}

/// Appends a JSON string literal.
fn push_json_str(out: &mut String, s: &str)
    ensures
        final(out)@ == old(out)@ + ser_str(s@),
{
    push_char(out, '"');
    push_escaped(out, s);
    push_char(out, '"');
    proof {
        assert(old(out)@.push('"') + esc(s@) =~= old(out)@ + (seq!['"'] + esc(s@)));
        assert((old(out)@ + (seq!['"'] + esc(s@))).push('"') =~= old(out)@ + ser_str(s@));
    }
}

/// Appends the decimal digits of `n`.
fn push_dec(out: &mut String, n: u64)
    ensures
        final(out)@ == old(out)@ + dec_str(n as nat),
    decreases n,
{
    if n < 10 {
        push_char(out, ((0x30 + n) as u8) as char);
        proof {
            assert(old(out)@.push((0x30 + n as nat) as char) =~= old(out)@ + dec_str(n as nat));
        }
    } else {
        push_dec(out, n / 10);
        push_char(out, ((0x30 + (n % 10)) as u8) as char);
        proof {
            assert((old(out)@ + dec_str((n / 10) as nat)).push((0x30 + (n % 10) as nat) as char)
                =~= old(out)@ + dec_str(n as nat));
        }
    }
}

/// Appends the JSON text of a 64-bit integer.
fn push_int(out: &mut String, v: i64)
    ensures
        final(out)@ == old(out)@ + ser_int(v),
{
    if v >= 0 {
        push_dec(out, v as u64);
    } else {
        push_char(out, '-');
        let m: u64 = if v == i64::MIN {
            9223372036854775808u64
        } else {
            (-v) as u64
        };
        proof {
            assert(m as nat == (-(v as int)) as nat);
        }
        push_dec(out, m);
        proof {
            assert(old(out)@.push('-') + dec_str(m as nat) =~= old(out)@ + ser_int(v));
        }
    }
}

/// Appends the JSON text of a value.
fn push_json(out: &mut String, j: &Jval)
    ensures
        final(out)@ == old(out)@ + ser(*j),
    decreases *j,
{
    match j {
        Jval::Null => {
            out.append("null");
            proof {
                reveal_strlit("null");
                assert(old(out)@ + "null"@ =~= old(out)@ + ser(*j));
            }
        },
        Jval::Bool(b) => {
            if *b {
                out.append("true");
                proof {
                    reveal_strlit("true");
                    assert(old(out)@ + "true"@ =~= old(out)@ + ser(*j));
                }
            } else {
                out.append("false");
                proof {
                    reveal_strlit("false");
                    assert(old(out)@ + "false"@ =~= old(out)@ + ser(*j));
                }
            }
        },
        Jval::Int(v) => {
            push_int(out, *v);
        },
        Jval::Num(s) => {
            out.append(s.as_str());
        },
        Jval::Str(s) => {
            push_json_str(out, s.as_str());
        },
        Jval::Arr(v) => {
            push_char(out, '[');
            push_json_arr(out, v.as_slice());
            push_char(out, ']');
            proof {
                assert(old(out)@.push('[') + ser_arr(v@) =~= old(out)@ + (seq!['['] + ser_arr(
                    v@,
                )));
                assert((old(out)@ + (seq!['['] + ser_arr(v@))).push(']') =~= old(out)@ + ser(*j));
            }
        },
        Jval::Obj(f) => {
            push_char(out, '{');
            push_json_fields(out, f.as_slice());
            push_char(out, '}');
            proof {
                assert(old(out)@.push('{') + ser_fields(f@) =~= old(out)@ + (seq!['{']
                    + ser_fields(f@)));
                assert((old(out)@ + (seq!['{'] + ser_fields(f@))).push('}') =~= old(out)@ + ser(
                    *j,
                ));
            }
        },
    }
}

fn push_json_arr(out: &mut String, elems: &[Jval])
    ensures
        final(out)@ == old(out)@ + ser_arr(elems@),
    decreases elems@,
{
    proof {
        vstd::slice::axiom_spec_len(elems);
    }
    if elems.len() == 0 {
        proof {
            assert(old(out)@ + ser_arr(elems@) =~= old(out)@);
        }
    } else if elems.len() == 1 {
        push_json(out, &elems[0]);
    } else {
        push_json(out, &elems[0]);
        push_char(out, ',');
        let rest = slice_subrange(elems, 1, elems.len());
        proof {
            assert(rest@ =~= elems@.drop_first());
            assert(decreases_to!(elems@ => elems@.drop_first()));
        }
        push_json_arr(out, rest);
        proof {
            assert((old(out)@ + ser(elems@[0])).push(',') + ser_arr(elems@.drop_first())
                =~= old(out)@ + ser_arr(elems@));
        }
    }
}

fn push_json_fields(out: &mut String, fields: &[(String, Jval)])
    ensures
        final(out)@ == old(out)@ + ser_fields(fields@),
    decreases fields@,
{
    proof {
        vstd::slice::axiom_spec_len(fields);
    }
    if fields.len() == 0 {
        proof {
            assert(old(out)@ + ser_fields(fields@) =~= old(out)@);
        }
    } else {
        push_json_str(out, fields[0].0.as_str());
        push_char(out, ':');
        push_json(out, &fields[0].1);
        let ghost mid = out@;
        proof {
            assert(mid =~= old(out)@ + (ser_str(fields@[0].0@) + seq![':'] + ser(fields@[0].1)));
        }
        if fields.len() == 1 {
            proof {
                assert(mid =~= old(out)@ + ser_fields(fields@));
            }
        } else {
            push_char(out, ',');
            let rest = slice_subrange(fields, 1, fields.len());
            proof {
                assert(rest@ =~= fields@.drop_first());
                assert(decreases_to!(fields@ => fields@.drop_first()));
            }
            push_json_fields(out, rest);
            proof {
                assert(mid.push(',') + ser_fields(fields@.drop_first()) =~= old(out)@
                    + ser_fields(fields@));
            }
        }
    }
}

/// The decimal text of a 64-bit integer.
pub fn i64_to_string(v: i64) -> (r: String)
    ensures
        r@ == ser_int(v),
{
    let mut out = String::new();
    push_int(&mut out, v);
    proof {
        assert(Seq::<char>::empty() + ser_int(v) =~= ser_int(v));
    }
    out
}

/// The element of an array at an index, if it exists.
pub fn jat<'a>(arr: &'a Vec<Jval>, i: usize) -> (r: Option<&'a Jval>)
    ensures
        match r {
            Option::Some(j) => i < arr@.len() && *j == arr@[i as int],
            Option::None => i >= arr@.len(),
        },
{
    if i < arr.len() {
        Some(&arr[i])
    } else {
        None
    }
}

/// The JSON text of a value, as a fresh string.
pub fn to_json_string(j: &Jval) -> (r: String)
    ensures
        r@ == ser(*j),
{
    let mut out = String::new();
    push_json(&mut out, j);
    proof {
        assert(Seq::<char>::empty() + ser(*j) =~= ser(*j));
    }
    out
}

} // verus!
