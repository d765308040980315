//! How a [`MontyObject`] prints: Python's `str()` and `repr()` of the value.
use vstd::prelude::*;
use crate::object::{MontyObject, AnnotatedDictPairs};
use crate::metadata::AnnotatedObject;
use crate::vm::char_string;

verus! {

/// The decimal digit `d`.
pub open spec fn digit(d: int) -> char {
    if d == 0 { '0' } else if d == 1 { '1' } else if d == 2 { '2' } else if d == 3 { '3' }
    else if d == 4 { '4' } else if d == 5 { '5' } else if d == 6 { '6' } else if d == 7 { '7' }
    else if d == 8 { '8' } else { '9' }
}

/// The lowercase hexadecimal digit `d`.
pub open spec fn hex_digit(d: int) -> char {
    if d < 10 { digit(d) } else if d == 10 { 'a' } else if d == 11 { 'b' } else if d == 12 { 'c' }
    else if d == 13 { 'd' } else if d == 14 { 'e' } else { 'f' }
}

/// The decimal digits of `n`.
pub open spec fn nat_text(n: nat) -> Seq<char>
    decreases n,
{
    if n < 10 {
        seq![digit(n as int)]
    } else {
        nat_text(n / 10).push(digit((n % 10) as int))
    }
}

/// The decimal text of `n`, with a leading `-` when negative.
pub open spec fn int_text(n: int) -> Seq<char> {
    if n < 0 {
        seq!['-'] + nat_text((-n) as nat)
    } else {
        nat_text(n as nat)
    }
}

/// How `c` is written inside a string's `repr()` quoted with `quote`.
pub open spec fn escape_char(c: char, quote: char) -> Seq<char> {
    if c == quote || c == '\\' {
        seq!['\\', c]
    } else if c == '\n' {
        seq!['\\', 'n']
    } else if c == '\r' {
        seq!['\\', 'r']
    } else if c == '\t' {
        seq!['\\', 't']
    } else if (c as u32) < 0x20 || (c as u32) == 0x7f {
        seq!['\\', 'x', hex_digit((c as int) / 16), hex_digit((c as int) % 16)]
    } else {
        seq![c]
    }
}

/// The characters of `s` escaped for a `repr()` quoted with `quote`.
pub open spec fn escaped(s: Seq<char>, quote: char) -> Seq<char>
    decreases s.len(),
{
    if s.len() == 0 {
        Seq::empty()
    } else {
        escaped(s.drop_last(), quote) + escape_char(s.last(), quote)
    }
}

/// The quote of a string's `repr()`: double quotes when the string holds a single quote
/// and no double quote, single quotes otherwise.
pub open spec fn repr_quote(s: Seq<char>) -> char {
    if s.contains('\'') && !s.contains('"') {
        '"'
    } else {
        '\''
    }
}

/// A string's `repr()`.
pub open spec fn str_repr_text(s: Seq<char>) -> Seq<char> {
    let q = repr_quote(s);
    seq![q] + escaped(s, q) + seq![q]
}

/// An object's `repr()`.
pub open spec fn repr_text(o: MontyObject) -> Seq<char>
    decreases o,
{
    match o {
        MontyObject::NoneValue => "None"@,
        MontyObject::Bool(b) => if b { "True"@ } else { "False"@ },
        MontyObject::Int(n) => int_text(n as int),
        MontyObject::String(s) => str_repr_text(s@),
        MontyObject::List(v) => "["@ + items_text(v@) + "]"@,
        MontyObject::Tuple(v) => "("@ + items_text(v@) + (if v@.len() == 1 { ","@ } else { ""@ }) + ")"@,
        MontyObject::Dict(AnnotatedDictPairs(v)) => "{"@ + pairs_text(v@) + "}"@,
    }
}

/// The `repr()`s of elements, separated by `", "`.
pub open spec fn items_text(s: Seq<AnnotatedObject>) -> Seq<char>
    decreases s,
{
    if s.len() == 0 {
        Seq::empty()
    } else if s.len() == 1 {
        repr_text(s[0].value)
    } else {
        items_text(s.drop_last()) + ", "@ + repr_text(s.last().value)
    }
}

/// The `key: value` `repr()`s of dict entries, separated by `", "`.
pub open spec fn pairs_text(s: Seq<(AnnotatedObject, AnnotatedObject)>) -> Seq<char>
    decreases s,
{
    if s.len() == 0 {
        Seq::empty()
    } else if s.len() == 1 {
        repr_text(s[0].0.value) + ": "@ + repr_text(s[0].1.value)
    } else {
        pairs_text(s.drop_last()) + ", "@ + repr_text(s.last().0.value) + ": "@ + repr_text(s.last().1.value)
    }
}

/// An object's `str()`: a string is itself, anything else its `repr()`.
pub open spec fn str_text(o: MontyObject) -> Seq<char> {
    match o {
        MontyObject::String(s) => s@,
        _ => repr_text(o),
    }
}

/// Appends the character `c`.
pub(crate) fn push_char(out: &mut String, c: char)
    ensures
        final(out)@ == old(out)@.push(c),
{
    let s = char_string(c);
    out.append(s.as_str());
    proof {
        assert(seq![c] =~= Seq::<char>::empty().push(c));
        assert(old(out)@ + seq![c] =~= old(out)@.push(c));
    }
}

/// The decimal digit `d`.
fn digit_char(d: u64) -> (c: char)
    requires
        d < 16,
    ensures
        c == hex_digit(d as int),
{
    if d == 0 { '0' } else if d == 1 { '1' } else if d == 2 { '2' } else if d == 3 { '3' }
    else if d == 4 { '4' } else if d == 5 { '5' } else if d == 6 { '6' } else if d == 7 { '7' }
    else if d == 8 { '8' } else if d == 9 { '9' } else if d == 10 { 'a' } else if d == 11 { 'b' }
    else if d == 12 { 'c' } else if d == 13 { 'd' } else if d == 14 { 'e' } else { 'f' }
}

/// Appends the decimal digits of `n`.
pub(crate) fn push_nat(out: &mut String, n: u64)
    ensures
        final(out)@ == old(out)@ + nat_text(n as nat),
    decreases n,
{
    if n >= 10 {
        push_nat(out, n / 10);
    }
    push_char(out, digit_char(n % 10));
    proof {
        if n >= 10 {
            assert(old(out)@ + nat_text(n as nat) =~= old(out)@ + nat_text((n / 10) as nat) + seq![digit((n % 10) as int)]);
        } else {
            assert(nat_text(n as nat) == seq![digit(n as int)]);
            assert(old(out)@ + nat_text(n as nat) =~= old(out)@.push(digit(n as int)));
        }
    }
}

/// Appends the decimal text of `n`.
pub fn push_int(out: &mut String, n: i64)
    ensures
        final(out)@ == old(out)@ + int_text(n as int),
{
    if n < 0 {
        push_char(out, '-');
        let m: u64 = if n == i64::MIN {
            9223372036854775808u64
        } else {
            (-n) as u64
        };
        push_nat(out, m);
        proof {
            assert(old(out)@ + int_text(n as int) =~= old(out)@.push('-') + nat_text(m as nat));
        }
    } else {
        push_nat(out, n as u64);
    }
}

/// Appends `c` as written inside a string's `repr()` quoted with `quote`.
fn push_escaped_char(out: &mut String, c: char, quote: char)
    ensures
        final(out)@ == old(out)@ + escape_char(c, quote),
{
    let ghost o = out@;
    if c == quote || c == '\\' {
        push_char(out, '\\');
        push_char(out, c);
        assert(out@ =~= o + seq!['\\', c]);
    } else if c == '\n' {
        push_char(out, '\\');
        push_char(out, 'n');
        assert(out@ =~= o + seq!['\\', 'n']);
    } else if c == '\r' {
        push_char(out, '\\');
        push_char(out, 'r');
        assert(out@ =~= o + seq!['\\', 'r']);
    } else if c == '\t' {
        push_char(out, '\\');
        push_char(out, 't');
        assert(out@ =~= o + seq!['\\', 't']);
    } else if (c as u32) < 0x20 || (c as u32) == 0x7f {
        let v = c as u32 as u64;
        push_char(out, '\\');
        push_char(out, 'x');
        push_char(out, digit_char(v / 16));
        push_char(out, digit_char(v % 16));
        assert(out@ =~= o + seq!['\\', 'x', hex_digit((c as int) / 16), hex_digit((c as int) % 16)]);
    } else {
        push_char(out, c);
        assert(out@ =~= o + seq![c]);
    }
}

/// Appends a string's `repr()`.
pub fn push_str_repr(out: &mut String, s: &str)
    ensures
        final(out)@ == old(out)@ + str_repr_text(s@),
{
    let cs = crate::vm::string_chars(s);
    let mut has_single = false;
    let mut has_double = false;
    let mut k: usize = 0;
    while k < cs.len()
        invariant
            k <= cs@.len(),
            cs@ == s@,
            has_single == cs@.subrange(0, k as int).contains('\''),
            has_double == cs@.subrange(0, k as int).contains('"'),
        decreases cs@.len() - k,
    {
        proof {
            let p = cs@.subrange(0, k as int);
            let q = cs@.subrange(0, k + 1);
            assert(q =~= p.push(cs@[k as int]));
            assert(q.contains('\'') == (p.contains('\'') || cs@[k as int] == '\'')) by {
                if q.contains('\'') {
                    let i = choose|i: int| 0 <= i < q.len() && q[i] == '\'';
                    if i < k { assert(p[i] == '\''); }
                }
                if p.contains('\'') {
                    let i = choose|i: int| 0 <= i < p.len() && p[i] == '\'';
                    assert(q[i] == '\'');
                }
                if cs@[k as int] == '\'' { assert(q[k as int] == '\''); }
            }
            assert(q.contains('"') == (p.contains('"') || cs@[k as int] == '"')) by {
                if q.contains('"') {
                    let i = choose|i: int| 0 <= i < q.len() && q[i] == '"';
                    if i < k { assert(p[i] == '"'); }
                }
                if p.contains('"') {
                    let i = choose|i: int| 0 <= i < p.len() && p[i] == '"';
                    assert(q[i] == '"');
                }
                if cs@[k as int] == '"' { assert(q[k as int] == '"'); }
            }
        }
        if cs[k] == '\'' {
            has_single = true;
        }
        if cs[k] == '"' {
            has_double = true;
        }
        k = k + 1;
    }
    proof {
        assert(cs@.subrange(0, cs@.len() as int) =~= cs@);
    }
    let quote = if has_single && !has_double { '"' } else { '\'' };
    let ghost o = out@;
    push_char(out, quote);
    let mut k: usize = 0;
    while k < cs.len()
        invariant
            k <= cs@.len(),
            cs@ == s@,
            quote == repr_quote(s@),
            out@ == o.push(quote) + escaped(cs@.subrange(0, k as int), quote),
        decreases cs@.len() - k,
    {
        push_escaped_char(out, cs[k], quote);
        proof {
            let q = cs@.subrange(0, k + 1);
            assert(q.drop_last() =~= cs@.subrange(0, k as int));
        }
        k = k + 1;
    }
    push_char(out, quote);
    proof {
        assert(cs@.subrange(0, cs@.len() as int) =~= cs@);
        assert(out@ =~= o + str_repr_text(s@));
    }
}

/// Appends an object's `repr()`.
pub fn push_repr(out: &mut String, o: &MontyObject)
    ensures
        final(out)@ == old(out)@ + repr_text(*o),
    decreases o,
{
    let ghost start = out@;
    match o {
        MontyObject::NoneValue => out.append("None"),
        MontyObject::Bool(b) => {
            if *b {
                out.append("True");
            } else {
                out.append("False");
            }
        },
        MontyObject::Int(n) => push_int(out, *n),
        MontyObject::String(s) => push_str_repr(out, s.as_str()),
        MontyObject::List(v) => {
            out.append("[");
            push_items(out, v);
            out.append("]");
        },
        MontyObject::Tuple(v) => {
            out.append("(");
            push_items(out, v);
            if v.len() == 1 {
                out.append(",");
            } else {
                out.append("");
            }
            out.append(")");
        },
        MontyObject::Dict(AnnotatedDictPairs(v)) => {
            out.append("{");
            push_pairs(out, v);
            out.append("}");
        },
    }
    proof {
        assert(out@ =~= start + repr_text(*o));
    }
}

/// Appends the `repr()`s of elements, separated by `", "`.
fn push_items(out: &mut String, v: &Vec<AnnotatedObject>)
    ensures
        final(out)@ == old(out)@ + items_text(v@),
    decreases v,
{
    let ghost start = out@;
    let mut k: usize = 0;
    while k < v.len()
        invariant
            k <= v@.len(),
            out@ == start + items_text(v@.subrange(0, k as int)),
        decreases v@.len() - k,
    {
        if k > 0 {
            out.append(", ");
        }
        assert(decreases_to!(v => v@[k as int].value));
        push_repr(out, &v[k].value);
        proof {
            let q = v@.subrange(0, k + 1);
            assert(q.drop_last() =~= v@.subrange(0, k as int));
            if k == 0 {
                assert(q.len() == 1);
            }
        }
        k = k + 1;
    }
    proof {
        assert(v@.subrange(0, v@.len() as int) =~= v@);
    }
}

/// Appends the `key: value` `repr()`s of dict entries, separated by `", "`.
fn push_pairs(out: &mut String, v: &Vec<(AnnotatedObject, AnnotatedObject)>)
    ensures
        final(out)@ == old(out)@ + pairs_text(v@),
    decreases v,
{
    let ghost start = out@;
    let mut k: usize = 0;
    while k < v.len()
        invariant
            k <= v@.len(),
            out@ == start + pairs_text(v@.subrange(0, k as int)),
        decreases v@.len() - k,
    {
        if k > 0 {
            out.append(", ");
        }
        assert(decreases_to!(v => v@[k as int].0.value));
        assert(decreases_to!(v => v@[k as int].1.value));
        push_repr(out, &v[k].0.value);
        out.append(": ");
        push_repr(out, &v[k].1.value);
        proof {
            let q = v@.subrange(0, k + 1);
            assert(q.drop_last() =~= v@.subrange(0, k as int));
            if k == 0 {
                assert(q.len() == 1);
            }
        }
        k = k + 1;
    }
    proof {
        assert(v@.subrange(0, v@.len() as int) =~= v@);
    }
}

/// An object's `repr()`.
pub fn py_repr(o: &MontyObject) -> (s: String)
    ensures
        s@ == repr_text(*o),
{
    let mut s = String::new();
    push_repr(&mut s, o);
    proof {
        assert(Seq::<char>::empty() + repr_text(*o) =~= repr_text(*o));
    }
    s
}

/// An object's `str()`: a string is itself, anything else its `repr()`.
pub fn py_str(o: &MontyObject) -> (s: String)
    ensures
        s@ == str_text(*o),
{
    match o {
        MontyObject::String(s) => s.clone(),
        _ => py_repr(o),
    }
}

} // verus!
