//! Rendering of JSON values as text: the compact JSON form, and the unquoted
//! form used when a placeholder's value is substituted into a larger string.

use vstd::prelude::*;

use crate::util::push_char;
use crate::value::{lemma_fsize_bound, lemma_ssize_bound, lemma_view_elems, lemma_view_fields};
use crate::value::{fsize, ssize, vsize, view_elems, view_fields, Value, ValueV};

verus! {

/// The decimal digit character for a value below ten.
pub open spec fn digit_char(d: int) -> char {
    if d == 0 {
        '0'
    } else if d == 1 {
        '1'
    } else if d == 2 {
        '2'
    } else if d == 3 {
        '3'
    } else if d == 4 {
        '4'
    } else if d == 5 {
        '5'
    } else if d == 6 {
        '6'
    } else if d == 7 {
        '7'
    } else if d == 8 {
        '8'
    } else {
        '9'
    }
}

/// The lowercase hexadecimal digit character for a value below sixteen.
pub open spec fn hex_char(d: int) -> char {
    if d < 10 {
        digit_char(d)
    } else if d == 10 {
        'a'
    } else if d == 11 {
        'b'
    } else if d == 12 {
        'c'
    } else if d == 13 {
        'd'
    } else if d == 14 {
        'e'
    } else {
        'f'
    }
}

/// Decimal rendering of a natural number.
pub open spec fn nat_str(m: nat) -> Seq<char>
    decreases m,
{
    if m < 10 {
        seq![digit_char(m as int)]
    } else {
        nat_str(m / 10).push(digit_char((m % 10) as int))
    }
}

/// Decimal rendering of an integer, with a leading minus sign when negative.
pub open spec fn int_str(n: int) -> Seq<char> {
    if n < 0 {
        seq!['-'] + nat_str((-n) as nat)
    } else {
        nat_str(n as nat)
    }
}

/// The JSON escape of one string character.
pub open spec fn esc_char(c: char) -> Seq<char> {
    if c == '"' {
        seq!['\\', '"']
    } else if c == '\\' {
        seq!['\\', '\\']
    } else if c == '\u{8}' {
        seq!['\\', 'b']
    } else if c == '\u{c}' {
        seq!['\\', 'f']
    } else if c == '\n' {
        seq!['\\', 'n']
    } else if c == '\r' {
        seq!['\\', 'r']
    } else if c == '\t' {
        seq!['\\', 't']
    } else if (c as u32) < 0x20 {
        seq!['\\', 'u', '0', '0', hex_char(c as int / 16), hex_char(c as int % 16)]
    } else {
        seq![c]
    }
}

/// The JSON escape of a whole string, without the surrounding quotes.
pub open spec fn escaped(s: Seq<char>) -> Seq<char>
    decreases s.len(),
{
    if s.len() == 0 {
        Seq::empty()
    } else {
        escaped(s.drop_last()) + esc_char(s.last())
    }
}

/// The compact JSON rendering of a value.
pub open spec fn json_str(v: ValueV) -> Seq<char>
    decreases vsize(v), 1int,
{
    match v {
        ValueV::Null => seq!['n', 'u', 'l', 'l'],
        ValueV::Bool(b) => if b {
            seq!['t', 'r', 'u', 'e']
        } else {
            seq!['f', 'a', 'l', 's', 'e']
        },
        ValueV::Int(n) => int_str(n),
        ValueV::Text(s) => seq!['"'] + escaped(s) + seq!['"'],
        ValueV::Array(es) => seq!['['] + json_elems_str(es) + seq![']'],
        ValueV::Object(fs) => seq!['{'] + json_fields_str(fs) + seq!['}'],
    }
}

/// The comma-separated JSON rendering of array elements.
pub open spec fn json_elems_str(es: Seq<ValueV>) -> Seq<char>
    decreases ssize(es), 0int,
    via check_json_elems_str
{
    if es.len() == 0 {
        Seq::empty()
    } else if es.len() == 1 {
        json_str(es[0])
    } else {
        json_elems_str(es.drop_last()) + seq![','] + json_str(es.last())
    }
}

#[via_fn]
proof fn check_json_elems_str(es: Seq<ValueV>) {
    if es.len() > 0 {
        crate::value::lemma_ssize_bound(es, es.len() - 1);
        crate::value::lemma_ssize_drop_last(es);
    }
}

/// The comma-separated JSON rendering of object members.
pub open spec fn json_fields_str(fs: Seq<(Seq<char>, ValueV)>) -> Seq<char>
    decreases fsize(fs), 0int,
    via check_json_fields_str
{
    if fs.len() == 0 {
        Seq::empty()
    } else {
        let m = seq!['"'] + escaped(fs.last().0) + seq!['"', ':'] + json_str(fs.last().1);
        if fs.len() == 1 {
            m
        } else {
            json_fields_str(fs.drop_last()) + seq![','] + m
        }
    }
}

#[via_fn]
proof fn check_json_fields_str(fs: Seq<(Seq<char>, ValueV)>) {
    if fs.len() > 0 {
        crate::value::lemma_fsize_bound(fs, fs.len() - 1);
        crate::value::lemma_fsize_drop_last(fs);
    }
}

/// The text a value substitutes as: strings render without quotes, every
/// other value renders as its JSON text.
pub open spec fn text_of(v: ValueV) -> Seq<char> {
    match v {
        ValueV::Text(s) => s,
        _ => json_str(v),
    }
}

/// Appends the decimal digit character for `d`.
fn push_digit(s: &mut String, d: u64)
    requires
        d < 10,
    ensures
        final(s)@ == old(s)@.push(digit_char(d as int)),
{
    let c = if d == 0 {
        '0'
    } else if d == 1 {
        '1'
    } else if d == 2 {
        '2'
    } else if d == 3 {
        '3'
    } else if d == 4 {
        '4'
    } else if d == 5 {
        '5'
    } else if d == 6 {
        '6'
    } else if d == 7 {
        '7'
    } else if d == 8 {
        '8'
    } else {
        '9'
    };
    push_char(s, c);
}

/// Appends the lowercase hexadecimal digit character for `d`.
fn push_hex(s: &mut String, d: u32)
    requires
        d < 16,
    ensures
        final(s)@ == old(s)@.push(hex_char(d as int)),
{
    let c = if d < 10 {
        return push_digit(s, d as u64);
    } else if d == 10 {
        'a'
    } else if d == 11 {
        'b'
    } else if d == 12 {
        'c'
    } else if d == 13 {
        'd'
    } else if d == 14 {
        'e'
    } else {
        'f'
    };
    push_char(s, c);
}

/// Appends the decimal rendering of a natural number.
fn push_nat(s: &mut String, m: u64)
    ensures
        final(s)@ == old(s)@ + nat_str(m as nat),
    decreases m,
{
    if m < 10 {
        push_digit(s, m);
    } else {
        push_nat(s, m / 10);
        push_digit(s, m % 10);
    }
}

/// Appends the decimal rendering of an integer.
fn push_int(s: &mut String, n: i64)
    ensures
        final(s)@ == old(s)@ + int_str(n as int),
{
    if n < 0 {
        push_char(s, '-');
        let m: u64 = (-(n as i128)) as u64;
        assert(m == -(n as int)) by (nonlinear_arith)
            requires
                i64::MIN <= n < 0,
                m == -(n as i128) as u64,
        ;
        push_nat(s, m);
    } else {
        push_nat(s, n as u64);
    }
}

/// Appends the JSON escape of one character.
fn push_esc_char(s: &mut String, c: char)
    ensures
        final(s)@ == old(s)@ + esc_char(c),
{
    if c == '"' {
        push_char(s, '\\');
        push_char(s, '"');
    } else if c == '\\' {
        push_char(s, '\\');
        push_char(s, '\\');
    } else if c == '\u{8}' {
        push_char(s, '\\');
        push_char(s, 'b');
    } else if c == '\u{c}' {
        push_char(s, '\\');
        push_char(s, 'f');
    } else if c == '\n' {
        push_char(s, '\\');
        push_char(s, 'n');
    } else if c == '\r' {
        push_char(s, '\\');
        push_char(s, 'r');
    } else if c == '\t' {
        push_char(s, '\\');
        push_char(s, 't');
    } else if (c as u32) < 0x20 {
        push_char(s, '\\');
        push_char(s, 'u');
        push_char(s, '0');
        push_char(s, '0');
        push_hex(s, (c as u32) / 16);
        push_hex(s, (c as u32) % 16);
        proof {
            assert((c as u32) / 16 == c as int / 16);
            assert((c as u32) % 16 == c as int % 16);
        }
    } else {
        push_char(s, c);
    }
    proof {
        assert(s@ =~= old(s)@ + esc_char(c));
    }
}

/// Appends the JSON escape of a whole string, without quotes.
fn push_escaped(s: &mut String, t: &str)
    ensures
        final(s)@ == old(s)@ + escaped(t@),
{
    let n = t.unicode_len();
    let mut i: usize = 0;
    while i < n
        invariant
            i <= n,
            n == t@.len(),
            s@ == old(s)@ + escaped(t@.subrange(0, i as int)),
        decreases n - i,
    {
        let c = t.get_char(i);
        push_esc_char(s, c);
        proof {
            assert(t@.subrange(0, i + 1 as int).drop_last() =~= t@.subrange(0, i as int));
            assert(t@.subrange(0, i + 1 as int).last() == c);
        }
        i = i + 1;
    }
    proof {
        assert(t@.subrange(0, n as int) =~= t@);
    }
}

/// Appends the compact JSON rendering of a value.
fn push_json(s: &mut String, v: &Value)
    ensures
        final(s)@ == old(s)@ + json_str(v@),
    decreases vsize(v@), 1int,
{
    match v {
        Value::Null => {
            push_char(s, 'n');
            push_char(s, 'u');
            push_char(s, 'l');
            push_char(s, 'l');
            proof {
                assert(old(s)@.push('n').push('u').push('l').push('l') =~= old(s)@ + json_str(
                    v@,
                ));
            }
        },
        Value::Bool(b) => {
            if *b {
                push_char(s, 't');
                push_char(s, 'r');
                push_char(s, 'u');
                push_char(s, 'e');
                proof {
                    assert(old(s)@.push('t').push('r').push('u').push('e') =~= old(s)@ + json_str(
                        v@,
                    ));
                }
            } else {
                push_char(s, 'f');
                push_char(s, 'a');
                push_char(s, 'l');
                push_char(s, 's');
                push_char(s, 'e');
                proof {
                    assert(old(s)@.push('f').push('a').push('l').push('s').push('e') =~= old(s)@
                        + json_str(v@));
                }
            }
        },
        Value::Int(n) => {
            push_int(s, *n);
        },
        Value::Text(t) => {
            push_char(s, '"');
            push_escaped(s, t.as_str());
            push_char(s, '"');
            proof {
                assert((old(s)@.push('"') + escaped(t@)).push('"') =~= old(s)@ + json_str(v@));
            }
        },
        Value::Array(es) => {
            proof {
                lemma_view_elems(es@);
            }
            push_char(s, '[');
            let ghost mid = s@;
            let n = es.len();
            let mut i: usize = 0;
            while i < n
                invariant
                    i <= n,
                    n == es@.len(),
                    view_elems(es@).len() == es@.len(),
                    forall|j: int|
                        0 <= j < es@.len() ==> view_elems(es@)[j] == (#[trigger] es@[j])@,
                    s@ == mid + json_elems_str(view_elems(es@).subrange(0, i as int)),
                    vsize(v@) == 1 + ssize(view_elems(es@)),
                decreases n - i,
            {
                if i > 0 {
                    push_char(s, ',');
                }
                proof {
                    lemma_ssize_bound(view_elems(es@), i as int);
                }
                push_json(s, &es[i]);
                proof {
                    let pre = view_elems(es@).subrange(0, i as int);
                    let cur = view_elems(es@).subrange(0, i + 1 as int);
                    assert(cur.drop_last() =~= pre);
                    assert(cur.last() == es@[i as int]@);
                    if i > 0 {
                        assert(s@ == mid + (json_elems_str(pre) + seq![','] + json_str(
                            es@[i as int]@,
                        )));
                        assert(s@ =~= mid + json_elems_str(cur));
                    } else {
                        assert(s@ =~= mid + json_elems_str(cur));
                    }
                }
                i = i + 1;
            }
            push_char(s, ']');
            proof {
                assert(view_elems(es@).subrange(0, n as int) =~= view_elems(es@));
                assert(s@ =~= old(s)@ + json_str(v@));
            }
        },
        Value::Object(fs) => {
            proof {
                lemma_view_fields(fs@);
            }
            push_char(s, '{');
            let ghost mid = s@;
            let n = fs.len();
            let mut i: usize = 0;
            while i < n
                invariant
                    i <= n,
                    n == fs@.len(),
                    view_fields(fs@).len() == fs@.len(),
                    forall|j: int|
                        0 <= j < fs@.len() ==> view_fields(fs@)[j] == ((#[trigger] fs@[j]).0@, fs@[j].1@),
                    s@ == mid + json_fields_str(view_fields(fs@).subrange(0, i as int)),
                    vsize(v@) == 1 + fsize(view_fields(fs@)),
                decreases n - i,
            {
                if i > 0 {
                    push_char(s, ',');
                }
                let ghost before = s@;
                push_char(s, '"');
                push_escaped(s, fs[i].0.as_str());
                push_char(s, '"');
                push_char(s, ':');
                proof {
                    lemma_fsize_bound(view_fields(fs@), i as int);
                }
                push_json(s, &fs[i].1);
                proof {
                    let pre = view_fields(fs@).subrange(0, i as int);
                    let cur = view_fields(fs@).subrange(0, i + 1 as int);
                    let m = seq!['"'] + escaped(fs@[i as int].0@) + seq!['"', ':'] + json_str(
                        fs@[i as int].1@,
                    );
                    assert(cur.drop_last() =~= pre);
                    assert(cur.last() == (fs@[i as int].0@, fs@[i as int].1@));
                    assert(s@ =~= before + m);
                    if i > 0 {
                        assert(s@ =~= mid + json_fields_str(cur));
                    } else {
                        assert(s@ =~= mid + json_fields_str(cur));
                    }
                }
                i = i + 1;
            }
            push_char(s, '}');
            proof {
                assert(view_fields(fs@).subrange(0, n as int) =~= view_fields(fs@));
                assert(s@ =~= old(s)@ + json_str(v@));
            }
        },
    }
}

impl Value {
    /// The compact JSON text of the value.
    pub fn json_text(&self) -> (r: String)
        ensures
            r@ == json_str(self@),
    {
        let mut s = String::new();
        push_json(&mut s, self);
        s
    }

    /// Text without quotes (specially for strings).
    pub fn to_text(&self) -> (r: String)
        ensures
            r@ == text_of(self@),
    {
        match self {
            Value::Text(t) => t.clone(),
            _ => self.json_text(),
        }
    }
}

} // verus!
