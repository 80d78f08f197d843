//! Text-building blocks for the generator: decimal renderings of the
//! numbers baked into declarations, the identifier normalization for UI
//! option names, and the lexicographic key order that makes table emission
//! deterministic.

use vstd::prelude::*;
use vstd::string::StrSliceExecFns;
use vstd::string::StringExecFns;

verus! {

/// The digit character of `d`.
pub open spec fn spec_digit_char(d: int) -> char {
    if d == 0 {
        '0'
    } else if d == 1 {
        '1'
    } else if d == 2 {
        '2'
    } else if d == 3 {
        '3'
    } else if d == 4 {
        '4'
    } else if d == 5 {
        '5'
    } else if d == 6 {
        '6'
    } else if d == 7 {
        '7'
    } else if d == 8 {
        '8'
    } else {
        '9'
    }
}

/// The decimal rendering of a natural number.
pub open spec fn spec_dec_chars(n: nat) -> Seq<char>
    decreases n,
{
    if n < 10 {
        seq![spec_digit_char(n as int)]
    } else {
        spec_dec_chars(n / 10) + seq![spec_digit_char(n as int % 10)]
    }
}

/// The decimal rendering of a signed number: a minus sign, then the
/// magnitude.
pub open spec fn spec_dec_chars_i64(i: i64) -> Seq<char> {
    if i >= 0 {
        spec_dec_chars(i as nat)
    } else {
        seq!['-'] + spec_dec_chars((-(i as int)) as nat)
    }
}

/// Appends one decimal digit.
fn push_digit(out: &mut String, d: u64)
    requires
        d < 10,
    ensures
        final(out)@ == old(out)@ + seq![spec_digit_char(d as int)],
{
    proof {
        reveal_strlit("0");
        reveal_strlit("1");
        reveal_strlit("2");
        reveal_strlit("3");
        reveal_strlit("4");
        reveal_strlit("5");
        reveal_strlit("6");
        reveal_strlit("7");
        reveal_strlit("8");
        reveal_strlit("9");
    }
    if d == 0 {
        out.append("0");
    } else if d == 1 {
        out.append("1");
    } else if d == 2 {
        out.append("2");
    } else if d == 3 {
        out.append("3");
    } else if d == 4 {
        out.append("4");
    } else if d == 5 {
        out.append("5");
    } else if d == 6 {
        out.append("6");
    } else if d == 7 {
        out.append("7");
    } else if d == 8 {
        out.append("8");
    } else {
        out.append("9");
    }
    assert(final(out)@ =~= old(out)@ + seq![spec_digit_char(d as int)]);
}

/// Appends the decimal rendering of `n`.
pub fn push_dec_u64(out: &mut String, n: u64)
    ensures
        final(out)@ == old(out)@ + spec_dec_chars(n as nat),
    decreases n,
{
    if n < 10 {
        push_digit(out, n);
    } else {
        push_dec_u64(out, n / 10);
        push_digit(out, n % 10);
        assert(final(out)@ =~= old(out)@ + spec_dec_chars(n as nat));
    }
}

/// Appends the decimal rendering of `i`, sign included.
pub fn push_dec_i64(out: &mut String, i: i64)
    ensures
        final(out)@ == old(out)@ + spec_dec_chars_i64(i),
{
    if i >= 0 {
        push_dec_u64(out, i as u64);
    } else {
        proof {
            reveal_strlit("-");
        }
        out.append("-");
        let m: u64 = ((-(i + 1)) as u64) + 1;
        push_dec_u64(out, m);
        assert(final(out)@ =~= old(out)@ + spec_dec_chars_i64(i));
    }
}

/// The uppercase form of an ASCII lowercase letter; any other character is
/// left as it is.
pub open spec fn spec_to_upper(c: char) -> char {
    if 97 <= c as int <= 122 {
        ((c as u8) - 32) as char
    } else {
        c
    }
}

/// The normalized identifier of a raw option string: word-separator-
/// delimited segments, each with its first character uppercased, the
/// separators dropped.
pub open spec fn spec_camel(s: Seq<char>) -> Seq<char> {
    spec_camel_go(s, true)
}

/// One pass of the normalization; `cap` says whether the next character
/// starts a segment.
pub open spec fn spec_camel_go(s: Seq<char>, cap: bool) -> Seq<char>
    decreases s,
{
    if s.len() == 0 {
        Seq::empty()
    } else if s[0] == '_' {
        spec_camel_go(s.subrange(1, s.len() as int), true)
    } else {
        seq![if cap {
            spec_to_upper(s[0])
        } else {
            s[0]
        }] + spec_camel_go(s.subrange(1, s.len() as int), false)
    }
}

/// Appends the uppercase form of an ASCII lowercase letter.
fn push_upper(out: &mut String, c: char)
    requires
        97 <= c as int <= 122,
    ensures
        final(out)@ == old(out)@ + seq![spec_to_upper(c)],
{
    proof {
        reveal_strlit("ABCDEFGHIJKLMNOPQRSTUVWXYZ");
    }
    let table = "ABCDEFGHIJKLMNOPQRSTUVWXYZ";
    let idx = (c as u32 as usize) - 97;
    let up = table.substring_ascii(idx, idx + 1);
    out.append(up);
    assert(final(out)@ =~= old(out)@ + seq![spec_to_upper(c)]);
}

/// Appends the normalized identifier of a raw option string.
#[verifier::loop_isolation(false)]
pub fn push_camel(out: &mut String, s: &str)
    ensures
        final(out)@ == old(out)@ + spec_camel(s@),
{
    let n = s.unicode_len();
    let mut i: usize = 0;
    let mut cap = true;
    proof {
        assert(s@.subrange(0, n as int) =~= s@);
    }
    while i < n
        invariant
            0 <= i <= n,
            n == s@.len(),
            old(out)@ + spec_camel(s@) == out@ + spec_camel_go(
                s@.subrange(i as int, n as int),
                cap,
            ),
        decreases n - i,
    {
        let ghost t = s@.subrange(i as int, n as int);
        proof {
            assert(t[0] == s@[i as int]);
            assert(t.subrange(1, t.len() as int) =~= s@.subrange(i + 1, n as int));
        }
        let c = s.get_char(i);
        if c == '_' {
            cap = true;
        } else if cap && 'a' <= c && c <= 'z' {
            push_upper(out, c);
            cap = false;
        } else {
            let piece = s.substring_char(i, i + 1);
            proof {
                assert(piece@ =~= seq![s@[i as int]]);
                assert(spec_to_upper(s@[i as int]) == s@[i as int] || !cap);
            }
            out.append(piece);
            cap = false;
        }
        i = i + 1;
    }
    proof {
        assert(s@.subrange(n as int, n as int) =~= Seq::<char>::empty());
        assert(out@ =~= old(out)@ + spec_camel(s@));
    }
}

/// The lexicographic order on strings, by character code.
pub open spec fn spec_str_le(a: Seq<char>, b: Seq<char>) -> bool
    decreases a,
{
    if a.len() == 0 {
        true
    } else if b.len() == 0 {
        false
    } else if (a[0] as int) < (b[0] as int) {
        true
    } else if (a[0] as int) > (b[0] as int) {
        false
    } else {
        spec_str_le(a.subrange(1, a.len() as int), b.subrange(1, b.len() as int))
    }
}

/// Compares two strings in the lexicographic order.
#[verifier::loop_isolation(false)]
pub fn str_le(a: &str, b: &str) -> (r: bool)
    ensures
        r == spec_str_le(a@, b@),
{
    let na = a.unicode_len();
    let nb = b.unicode_len();
    let mut i: usize = 0;
    proof {
        assert(a@.subrange(0, na as int) =~= a@);
        assert(b@.subrange(0, nb as int) =~= b@);
    }
    while i < na && i < nb
        invariant
            0 <= i <= na,
            0 <= i <= nb,
            na == a@.len(),
            nb == b@.len(),
            spec_str_le(a@, b@) == spec_str_le(
                a@.subrange(i as int, na as int),
                b@.subrange(i as int, nb as int),
            ),
        decreases na - i,
    {
        let ghost ta = a@.subrange(i as int, na as int);
        let ghost tb = b@.subrange(i as int, nb as int);
        proof {
            assert(ta[0] == a@[i as int]);
            assert(tb[0] == b@[i as int]);
            assert(ta.subrange(1, ta.len() as int) =~= a@.subrange(i + 1, na as int));
            assert(tb.subrange(1, tb.len() as int) =~= b@.subrange(i + 1, nb as int));
        }
        let ca = a.get_char(i);
        let cb = b.get_char(i);
        if (ca as u32) < (cb as u32) {
            return true;
        }
        if (ca as u32) > (cb as u32) {
            return false;
        }
        i = i + 1;
    }
    proof {
        if i >= na {
            assert(a@.subrange(i as int, na as int) =~= Seq::<char>::empty());
        } else {
            assert(b@.subrange(i as int, nb as int) =~= Seq::<char>::empty());
            assert(a@.subrange(i as int, na as int).len() > 0);
        }
    }
    i >= na
}

} // verus!
