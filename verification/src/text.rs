//! Decimal text of numbers, and the string operations that the payload
//! types' messages and text are built with.

use vstd::prelude::*;

verus! {

/// The character of a decimal digit.
pub open spec fn digit(d: nat) -> char {
    ((d + 48) as u8) as char
}

/// The decimal digits of `n`, most significant first, without leading zeros.
pub open spec fn dec(n: nat) -> Seq<char>
    decreases n,
{
    if n < 10 {
        seq![digit(n)]
    } else {
        dec(n / 10).push(digit(n % 10))
    }
}

/// The decimal text of `v`, with a minus sign where it is negative.
pub open spec fn idec(v: int) -> Seq<char> {
    if v < 0 {
        seq!['-'] + dec((-v) as nat)
    } else {
        dec(v as nat)
    }
}

/// Appends the character `c` to `s` (`String::push`).
#[verifier::external_body]
pub fn push_char(s: &mut String, c: char)
    ensures
        final(s)@ == old(s)@.push(c),
{
    s.push(c);
}

/// Appends the text of `t` to `s`.
pub fn push_str(s: &mut String, t: &String)
    ensures
        final(s)@ == old(s)@ + t@,
{
    s.append(t.as_str());
}

/// Appends the decimal digits of `n` to `out`.
pub fn push_dec(out: &mut String, n: u64)
    ensures
        final(out)@ == old(out)@ + dec(n as nat),
    decreases n,
{
    if n >= 10 {
        push_dec(out, n / 10);
    }
    let d = (n % 10) as u8;
    push_char(out, (d + 48u8) as char);
    proof {
        if n >= 10 {
            assert(old(out)@ + dec(n as nat) =~= old(out)@ + dec((n / 10) as nat) + seq![
                digit((n % 10) as nat),
            ]);
        }
    }
}

/// The decimal text of `n`.
pub fn usize_text(n: usize) -> (r: String)
    ensures
        r@ == dec(n as nat),
{
    let mut s = String::new();
    push_dec(&mut s, n as u64);
    proof {
        assert(s@ =~= dec(n as nat));
    }
    s
}

/// The decimal text of `n`.
pub fn u64_text(n: u64) -> (r: String)
    ensures
        r@ == dec(n as nat),
{
    let mut s = String::new();
    push_dec(&mut s, n);
    proof {
        assert(s@ =~= dec(n as nat));
    }
    s
}

/// The decimal text of `v`, with a minus sign where it is negative.
pub fn i64_text(v: i64) -> (r: String)
    ensures
        r@ == idec(v as int),
{
    let mut s = String::new();
    if v < 0 {
        push_char(&mut s, '-');
        let m: u64 = ((-(v + 1)) as u64) + 1;
        push_dec(&mut s, m);
        proof {
            assert(s@ =~= idec(v as int));
        }
    } else {
        push_dec(&mut s, v as u64);
        proof {
            assert(s@ =~= idec(v as int));
        }
    }
    s
}

/// The character of a hexadecimal digit, upper case.
pub open spec fn hex_digit(d: nat) -> char {
    if d < 10 {
        ((d + 48) as u8) as char
    } else {
        ((d + 55) as u8) as char
    }
}

/// The hexadecimal digits of `n`, most significant first, without leading
/// zeros.
pub open spec fn hex(n: nat) -> Seq<char>
    decreases n,
{
    if n < 16 {
        seq![hex_digit(n)]
    } else {
        hex(n / 16).push(hex_digit(n % 16))
    }
}

/// Appends the hexadecimal digits of `n` to `out`.
pub fn push_hex(out: &mut String, n: u64)
    ensures
        final(out)@ == old(out)@ + hex(n as nat),
    decreases n,
{
    if n >= 16 {
        push_hex(out, n / 16);
    }
    let d = (n % 16) as u8;
    if d < 10 {
        push_char(out, (d + 48u8) as char);
    } else {
        push_char(out, (d + 55u8) as char);
    }
    proof {
        if n >= 16 {
            assert(old(out)@ + hex(n as nat) =~= old(out)@ + hex((n / 16) as nat) + seq![
                hex_digit((n % 16) as nat),
            ]);
        }
    }
}

/// The text `0x` followed by the hexadecimal digits of `n`.
pub fn hex_text(n: u64) -> (r: String)
    ensures
        r@ == "0x"@ + hex(n as nat),
{
    let mut s = String::from_str("0x");
    push_hex(&mut s, n);
    s
}

/// The text `s` with each occurrence of the character `from` replaced by
/// the text `to`.
pub open spec fn replace_all(s: Seq<char>, from: char, to: Seq<char>) -> Seq<char>
    decreases s.len(),
{
    if s.len() == 0 {
        Seq::empty()
    } else {
        replace_all(s.drop_last(), from, to) + if s.last() == from {
            to
        } else {
            seq![s.last()]
        }
    }
}

/// The text `s` with each occurrence of the character `from` replaced by
/// the text `to`.
pub fn replace_char(s: &str, from: char, to: &str) -> (r: String)
    ensures
        r@ == replace_all(s@, from, to@),
{
    broadcast use vstd::string::axiom_spec_iter;
    let mut out = String::new();
    for c in it: s.chars()
        invariant
            it.seq() == s@,
            out@ == replace_all(s@.take(it.index() as int), from, to@),
    {
        let ghost i = it.index() as int;
        proof {
            assert(s@.take(i + 1).drop_last() =~= s@.take(i));
        }
        if c == from {
            out.append(to);
        } else {
            push_char(&mut out, c);
        }
    }
    proof {
        assert(s@.take(s@.len() as int) =~= s@);
    }
    out
}

} // verus!
