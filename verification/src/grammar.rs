//! The type-name grammar: a manifest type-name token is a bare ASCII-
//! alphabetic identifier, or `ArrayOf(<Elem>)`, or `ArrayOf(<Elem>, <N>)`
//! with `<Elem>` an ASCII-alphabetic identifier and `<N>` a decimal
//! literal. The parser is purely lexical — nothing nests — and malformed or
//! truncated input fails explicitly.

use vstd::prelude::*;

verus! {

/// A parsed type-name token: a scalar, a dynamically sized sequence, or a
/// fixed-size sequence.
#[derive(Debug, PartialEq, Eq, Clone)]
pub enum TypeName {
    Scalar(String),
    DynamicArray(String),
    FixedArray { size: i64, elem: String },
}

/// The model of a parsed type-name token.
pub enum SpecTypeName {
    Scalar(Seq<char>),
    DynamicArray(Seq<char>),
    FixedArray { size: i64, elem: Seq<char> },
}

impl View for TypeName {
    type V = SpecTypeName;

    open spec fn view(&self) -> SpecTypeName {
        match self {
            TypeName::Scalar(s) => SpecTypeName::Scalar(s@),
            TypeName::DynamicArray(s) => SpecTypeName::DynamicArray(s@),
            TypeName::FixedArray { size, elem } => SpecTypeName::FixedArray {
                size: *size,
                elem: elem@,
            },
        }
    }
}

/// A malformed or truncated type-name token.
#[derive(Debug, PartialEq, Eq, Clone, Copy, Structural)]
pub enum TypeNameError {
    Malformed,
}

pub open spec fn spec_is_alpha(c: char) -> bool {
    (97 <= c as int <= 122) || (65 <= c as int <= 90)
}

pub open spec fn spec_is_digit(c: char) -> bool {
    48 <= c as int <= 57
}

pub open spec fn spec_all_alpha(s: Seq<char>) -> bool {
    forall|i: int| 0 <= i < s.len() ==> spec_is_alpha(#[trigger] s[i])
}

pub open spec fn spec_all_digits(s: Seq<char>) -> bool {
    forall|i: int| 0 <= i < s.len() ==> spec_is_digit(#[trigger] s[i])
}

/// How many leading characters of `s` are ASCII-alphabetic.
pub open spec fn spec_alpha_prefix_len(s: Seq<char>) -> nat
    decreases s,
{
    if s.len() == 0 || !spec_is_alpha(s[0]) {
        0
    } else {
        1 + spec_alpha_prefix_len(s.subrange(1, s.len() as int))
    }
}

/// The number a decimal digit string denotes.
pub open spec fn spec_dec_value(s: Seq<char>) -> nat
    decreases s,
{
    if s.len() == 0 {
        0
    } else {
        (spec_dec_value(s.subrange(0, s.len() - 1)) * 10 + (s[s.len() - 1] as int - 48)) as nat
    }
}

/// The characters `ArrayOf(` that open both sequence forms.
pub open spec fn spec_arrayof_prefix() -> Seq<char> {
    seq!['A', 'r', 'r', 'a', 'y', 'O', 'f', '(']
}

/// What parsing a type-name token means. A bare non-empty alphabetic token
/// is a scalar; `ArrayOf(` opens a sequence form, which holds a non-empty
/// alphabetic element name and then either closes at once or carries
/// `, <digits>)` with a size that fits a signed 64-bit value; everything
/// else is malformed.
pub open spec fn spec_parse_type_name(s: Seq<char>) -> Result<SpecTypeName, TypeNameError> {
    if s.len() >= 8 && s.subrange(0, 8) == spec_arrayof_prefix() {
        let t = s.subrange(8, s.len() as int);
        let k = spec_alpha_prefix_len(t);
        let elem = t.subrange(0, k as int);
        let rest = t.subrange(k as int, t.len() as int);
        if k == 0 {
            Err(TypeNameError::Malformed)
        } else if rest =~= seq![')'] {
            Ok(SpecTypeName::DynamicArray(elem))
        } else if rest.len() >= 4 && rest[0] == ',' && rest[1] == ' ' && rest.last() == ')'
            && spec_all_digits(rest.subrange(2, rest.len() - 1)) {
            let digits = rest.subrange(2, rest.len() - 1);
            if spec_dec_value(digits) <= 0x7fff_ffff_ffff_ffff {
                Ok(
                    SpecTypeName::FixedArray {
                        size: spec_dec_value(digits) as i64,
                        elem,
                    },
                )
            } else {
                Err(TypeNameError::Malformed)
            }
        } else {
            Err(TypeNameError::Malformed)
        }
    } else if s.len() > 0 && spec_all_alpha(s) {
        Ok(SpecTypeName::Scalar(s))
    } else {
        Err(TypeNameError::Malformed)
    }
}

/// A scan that stops at the first non-alphabetic character finds the
/// alphabetic prefix length.
proof fn lemma_alpha_prefix(t: Seq<char>, k: nat)
    requires
        k <= t.len(),
        forall|j: int| 0 <= j < k ==> spec_is_alpha(#[trigger] t[j]),
        k == t.len() || !spec_is_alpha(t[k as int]),
    ensures
        spec_alpha_prefix_len(t) == k,
    decreases t,
{
    if k == 0 {
    } else {
        let t2 = t.subrange(1, t.len() as int);
        assert(forall|j: int| 0 <= j < k - 1 ==> spec_is_alpha(#[trigger] t2[j])) by {
            assert(forall|j: int| 0 <= j < k - 1 ==> t2[j] == t[j + 1]);
        }
        assert(k - 1 == t2.len() || !spec_is_alpha(t2[k - 1]));
        lemma_alpha_prefix(t2, (k - 1) as nat);
    }
}

/// A digit string's value only grows as more digits follow.
proof fn lemma_dec_value_prefix_le(s: Seq<char>, j: int)
    requires
        0 <= j <= s.len(),
        spec_all_digits(s),
    ensures
        spec_dec_value(s.subrange(0, j)) <= spec_dec_value(s),
    decreases s.len() - j,
{
    if j < s.len() {
        let t = s.subrange(0, j + 1);
        assert(t.subrange(0, j) =~= s.subrange(0, j));
        assert(spec_dec_value(t) == spec_dec_value(s.subrange(0, j)) * 10 + (s[j] as int - 48));
        assert(spec_dec_value(s.subrange(0, j)) <= spec_dec_value(s.subrange(0, j + 1)));
        lemma_dec_value_prefix_le(s, j + 1);
        assert(s.subrange(0, s.len() as int) =~= s);
    } else {
        assert(s.subrange(0, j) =~= s);
    }
}

/// Parses one manifest type-name token.
#[verifier::loop_isolation(false)]
pub fn parse_type_name(s: &str) -> (r: Result<TypeName, TypeNameError>)
    ensures
        match r {
            Ok(t) => spec_parse_type_name(s@) == Ok::<SpecTypeName, TypeNameError>(t@),
            Err(e) => spec_parse_type_name(s@) == Err::<SpecTypeName, TypeNameError>(e),
        },
{
    let n = s.unicode_len();
    let has_prefix = n >= 8 && s.get_char(0) == 'A' && s.get_char(1) == 'r' && s.get_char(2)
        == 'r' && s.get_char(3) == 'a' && s.get_char(4) == 'y' && s.get_char(5) == 'O'
        && s.get_char(6) == 'f' && s.get_char(7) == '(';
    proof {
        if n >= 8 {
            assert(s@.subrange(0, 8) == spec_arrayof_prefix() <==> (s@[0] == 'A' && s@[1] == 'r'
                && s@[2] == 'r' && s@[3] == 'a' && s@[4] == 'y' && s@[5] == 'O' && s@[6] == 'f'
                && s@[7] == '(')) by {
                if s@[0] == 'A' && s@[1] == 'r' && s@[2] == 'r' && s@[3] == 'a' && s@[4] == 'y'
                    && s@[5] == 'O' && s@[6] == 'f' && s@[7] == '(' {
                    assert(s@.subrange(0, 8) =~= spec_arrayof_prefix());
                } else {
                    assert(s@.subrange(0, 8) != spec_arrayof_prefix() || s@.subrange(0, 8)
                        =~= spec_arrayof_prefix());
                }
            }
        }
    }
    if has_prefix {
        let ghost t = s@.subrange(8, s@.len() as int);
        let mut i: usize = 8;
        while i < n && is_alpha(s.get_char(i))
            invariant
                8 <= i <= n,
                forall|j: int| 8 <= j < i ==> spec_is_alpha(#[trigger] s@[j]),
            decreases n - i,
        {
            i = i + 1;
        }
        proof {
            assert(forall|j: int| 0 <= j < i - 8 ==> spec_is_alpha(#[trigger] t[j])) by {
                assert(forall|j: int| 0 <= j < i - 8 ==> t[j] == s@[j + 8]);
            }
            if i < n {
                assert(t[i - 8] == s@[i as int]);
            }
            lemma_alpha_prefix(t, (i - 8) as nat);
        }
        let ghost k = spec_alpha_prefix_len(t);
        let ghost rest = t.subrange(k as int, t.len() as int);
        proof {
            assert(forall|j: int| 0 <= j < rest.len() ==> rest[j] == s@[i + j]);
        }
        if i == 8 {
            return Err(TypeNameError::Malformed);
        }
        let elem_str = s.substring_char(8, i);
        let elem = elem_str.to_owned();
        proof {
            assert(elem@ =~= t.subrange(0, k as int));
        }
        if i == n {
            return Err(TypeNameError::Malformed);
        }
        if s.get_char(i) == ')' {
            if i + 1 == n {
                proof {
                    assert(rest =~= seq![')']);
                }
                return Ok(TypeName::DynamicArray(elem));
            }
            proof {
                assert(rest[0] == ')');
                assert(!(rest =~= seq![')']));
            }
            return Err(TypeNameError::Malformed);
        }
        proof {
            assert(rest[0] == s@[i as int]);
            assert(!(rest =~= seq![')'])) by {
                assert(rest[0] != ')');
            }
        }
        if !(n - i > 2 && s.get_char(i) == ',' && s.get_char(i + 1) == ' ') {
            return Err(TypeNameError::Malformed);
        }
        // digits run from i + 2; the token must close with `)` at its end
        let mut j: usize = i + 2;
        while j < n && is_digit(s.get_char(j))
            invariant
                i + 2 <= j <= n,
                forall|p: int| i + 2 <= p < j ==> spec_is_digit(#[trigger] s@[p]),
            decreases n - j,
        {
            j = j + 1;
        }
        if j == i + 2 || n - j != 1 || !(s.get_char(j) == ')') {
            proof {
                lemma_reject_digits(s@, i as int, j as int, n as int, rest);
            }
            return Err(TypeNameError::Malformed);
        }
        let ghost digits = rest.subrange(2, rest.len() - 1);
        proof {
            assert(rest.len() == n - i);
            assert(rest.len() >= 4);
            assert(rest[0] == ',' && rest[1] == ' ' && rest.last() == ')');
            assert(forall|p: int| 0 <= p < digits.len() ==> digits[p] == s@[i + 2 + p]);
            assert(spec_all_digits(digits));
        }
        // value of the digit string, watching for 64-bit overflow
        let mut acc: u64 = 0;
        let mut p: usize = i + 2;
        proof {
            assert(digits.subrange(0, 0) =~= Seq::<char>::empty());
        }
        while p < j
            invariant
                i + 2 <= p <= j,
                acc as nat == spec_dec_value(digits.subrange(0, p - (i + 2))),
                acc <= 0x7fff_ffff_ffff_ffff,
            decreases j - p,
        {
            let c = s.get_char(p);
            let d: u64 = (c as u32 as u64) - 48;
            proof {
                assert(digits[p - (i + 2)] == s@[p as int]);
                assert(spec_is_digit(s@[p as int]));
            }
            if acc > (0x7fff_ffff_ffff_ffff - d) / 10 {
                proof {
                    let pr = (p - (i + 2)) as int;
                    let t1 = digits.subrange(0, pr + 1);
                    assert(t1.subrange(0, pr) =~= digits.subrange(0, pr));
                    assert(spec_dec_value(t1) == acc * 10 + d);
                    assert(acc * 10 + d > 0x7fff_ffff_ffff_ffff) by (nonlinear_arith)
                        requires
                            acc > (0x7fff_ffff_ffff_ffff - d) / 10,
                            0 <= d <= 9,
                            acc >= 0,
                    ;
                    lemma_dec_value_prefix_le(digits, pr + 1);
                }
                return Err(TypeNameError::Malformed);
            }
            proof {
                let pr = (p - (i + 2)) as int;
                let t1 = digits.subrange(0, pr + 1);
                assert(t1.subrange(0, pr) =~= digits.subrange(0, pr));
                assert(acc * 10 + d <= 0x7fff_ffff_ffff_ffff) by (nonlinear_arith)
                    requires
                        acc <= (0x7fff_ffff_ffff_ffff - d) / 10,
                        0 <= d <= 9,
                        acc >= 0,
                ;
            }
            acc = acc * 10 + d;
            p = p + 1;
        }
        proof {
            assert(digits.subrange(0, digits.len() as int) =~= digits);
        }
        Ok(TypeName::FixedArray { size: acc as i64, elem })
    } else {
        // a bare token: a non-empty all-alphabetic identifier, or malformed
        let mut i: usize = 0;
        while i < n && is_alpha(s.get_char(i))
            invariant
                0 <= i <= n,
                forall|j: int| 0 <= j < i ==> spec_is_alpha(#[trigger] s@[j]),
            decreases n - i,
        {
            i = i + 1;
        }
        if n > 0 && i == n {
            let owned = s.to_owned();
            Ok(TypeName::Scalar(owned))
        } else {
            Err(TypeNameError::Malformed)
        }
    }
}

/// A rest that fails the digit-run shape is not the fixed-size form.
proof fn lemma_reject_digits(s: Seq<char>, i: int, j: int, n: int, rest: Seq<char>)
    requires
        n == s.len(),
        8 <= i,
        i + 2 < n,
        i + 2 <= j <= n,
        rest.len() == n - i,
        forall|p: int| 0 <= p < rest.len() ==> rest[p] == s[i + p],
        forall|p: int| i + 2 <= p < j ==> spec_is_digit(#[trigger] s[p]),
        j == n || !spec_is_digit(s[j]),
        j == i + 2 || j + 1 != n || s[j] != ')',
        rest[0] == ',',
        rest[1] == ' ',
    ensures
        !(rest.len() >= 4 && rest[0] == ',' && rest[1] == ' ' && rest.last() == ')'
            && spec_all_digits(rest.subrange(2, rest.len() - 1))),
{
    if rest.len() >= 4 && rest.last() == ')' && spec_all_digits(rest.subrange(2, rest.len() - 1)) {
        let digits = rest.subrange(2, rest.len() - 1);
        assert(forall|p: int| 0 <= p < digits.len() ==> digits[p] == s[i + 2 + p]);
        // every character before the closing paren is a digit, so the digit
        // run reaches n - 1 exactly
        assert(forall|p: int| i + 2 <= p < n - 1 ==> spec_is_digit(#[trigger] s[p])) by {
            assert(forall|p: int|
                i + 2 <= p < n - 1 ==> s[p] == digits[p - (i + 2)] && spec_is_digit(
                    digits[p - (i + 2)],
                ));
        }
        assert(s[n - 1] == rest.last());
        if j == i + 2 {
            // the run is non-empty since rest.len() >= 4
            assert(spec_is_digit(s[i + 2]));
            assert(j == n || !spec_is_digit(s[j]));
            assert(false);
        } else if j + 1 != n {
            if j < n - 1 {
                assert(spec_is_digit(s[j]));
                assert(false);
            } else {
                // j == n: the run swallowed the closing paren
                assert(spec_is_digit(s[n - 1]));
                assert(s[n - 1] == ')');
                assert(false);
            }
        } else {
            assert(s[j] == ')');
            assert(false);
        }
    }
}

/// Whether a character is ASCII-alphabetic.
fn is_alpha(c: char) -> (r: bool)
    ensures
        r == spec_is_alpha(c),
{
    ('a' <= c && c <= 'z') || ('A' <= c && c <= 'Z')
}

/// Whether a character is an ASCII decimal digit.
fn is_digit(c: char) -> (r: bool)
    ensures
        r == spec_is_digit(c),
{
    '0' <= c && c <= '9'
}

} // verus!
