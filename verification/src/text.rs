//! Text helpers: joining strings, the character rules for names, and 16-digit
//! hexadecimal numbers.
use vstd::prelude::*;
use vstd::string::*;

verus! {

/// `a` followed by `b`.
pub fn join2(a: &str, b: &str) -> (r: String)
    ensures
        r@ == a@ + b@,
{
    let mut s = String::from_str(a);
    s.append(b);
    s
}

/// `a`, then `b`, then `c`.
pub fn join3(a: &str, b: &str, c: &str) -> (r: String)
    ensures
        r@ == a@ + b@ + c@,
{
    let mut s = String::from_str(a);
    s.append(b);
    s.append(c);
    s
}

/// A character allowed in a name: a lowercase ASCII letter, an ASCII digit or `_`.
pub open spec fn name_char(c: char) -> bool {
    ('a' <= c && c <= 'z') || ('0' <= c && c <= '9') || c == '_'
}

/// Whether a character is allowed in a name.
pub fn is_name_char(c: char) -> (r: bool)
    ensures
        r == name_char(c),
{
    ('a' <= c && c <= 'z') || ('0' <= c && c <= '9') || c == '_'
}

/// Whether every character of `s` is allowed in a name.
pub fn all_name_chars(s: &str) -> (r: bool)
    ensures
        r == (forall|i: int| 0 <= i < s@.len() ==> name_char(#[trigger] s@[i])),
{
    let n = s.unicode_len();
    let mut i: usize = 0;
    while i < n
        invariant
            n == s@.len(),
            i <= n,
            forall|j: int| 0 <= j < i ==> name_char(#[trigger] s@[j]),
        decreases n - i,
    {
        if !is_name_char(s.get_char(i)) {
            return false;
        }
        i = i + 1;
    }
    true
}

/// Why a name is refused.
#[derive(Clone, Copy, Debug, PartialEq, Eq, Structural)]
pub enum NameFault {
    /// The name has no characters.
    Empty,
    /// The name starts with `_`, which is kept for the database's own fields.
    LeadingUnderscore,
    /// A character is not a lowercase ASCII letter, an ASCII digit or `_`.
    InvalidChar,
}

/// What is wrong with a name, checked in this order, or `None` for a valid name.
pub open spec fn name_fault(s: Seq<char>) -> Option<NameFault> {
    if s.len() == 0 {
        Some(NameFault::Empty)
    } else if s[0] == '_' {
        Some(NameFault::LeadingUnderscore)
    } else if !(forall|i: int| 0 <= i < s.len() ==> name_char(#[trigger] s[i])) {
        Some(NameFault::InvalidChar)
    } else {
        None
    }
}

/// Checks a name of a collection or a field.
pub fn check_name(s: &str) -> (r: Option<NameFault>)
    ensures
        r == name_fault(s@),
{
    if s.unicode_len() == 0 {
        return Some(NameFault::Empty);
    }
    if s.get_char(0) == '_' {
        return Some(NameFault::LeadingUnderscore);
    }
    if !all_name_chars(s) {
        return Some(NameFault::InvalidChar);
    }
    None
}

/// A name is accepted exactly when it is not empty, does not start with `_`, and each of
/// its characters is a lowercase ASCII letter, an ASCII digit or `_`; an empty name and one
/// that starts with `_` are refused for that reason first.
pub proof fn lemma_accepted_names(s: Seq<char>)
    ensures
        name_fault(s) is None <==> (s.len() > 0 && s[0] != '_' && forall|i: int| 0 <= i < s.len() ==> (
        'a' <= #[trigger] s[i] && s[i] <= 'z') || ('0' <= s[i] && s[i] <= '9') || s[i] == '_'),
        name_fault(s) == Some(NameFault::Empty) <==> s.len() == 0,
        name_fault(s) == Some(NameFault::LeadingUnderscore) <==> (s.len() > 0 && s[0] == '_'),
{
}

/// A one-character name that is an ASCII digit or a lowercase ASCII letter is accepted;
/// an uppercase letter, `-`, a space or `.` is refused as an invalid character.
pub proof fn lemma_single_char_names(c: char)
    ensures
        ('0' <= c && c <= '9') || ('a' <= c && c <= 'z') ==> name_fault(seq![c]) is None,
        ('A' <= c && c <= 'Z') || c == '-' || c == ' ' || c == '.' ==> name_fault(seq![c]) == Some(
            NameFault::InvalidChar,
        ),
{
    assert(seq![c][0] == c);
}

/// Whether `s` starts with `prefix`.
pub fn starts_with(s: &str, prefix: &str) -> (r: bool)
    ensures
        r == (prefix@.len() <= s@.len() && s@.subrange(0, prefix@.len() as int) == prefix@),
{
    let n = s.unicode_len();
    let m = prefix.unicode_len();
    if m > n {
        return false;
    }
    let mut i: usize = 0;
    while i < m
        invariant
            n == s@.len(),
            m == prefix@.len(),
            m <= n,
            i <= m,
            forall|j: int| 0 <= j < i ==> s@[j] == prefix@[j],
        decreases m - i,
    {
        if s.get_char(i) != prefix.get_char(i) {
            assert(s@.subrange(0, m as int)[i as int] != prefix@[i as int]);
            return false;
        }
        i = i + 1;
    }
    assert(s@.subrange(0, m as int) =~= prefix@);
    true
}

/// The value of a hexadecimal digit character, either case.
pub open spec fn hex_value(c: char) -> Option<u64> {
    if '0' <= c && c <= '9' {
        Some((c as u64 - '0' as u64) as u64)
    } else if 'a' <= c && c <= 'f' {
        Some((c as u64 - 'a' as u64 + 10) as u64)
    } else if 'A' <= c && c <= 'F' {
        Some((c as u64 - 'A' as u64 + 10) as u64)
    } else {
        None
    }
}

/// The number that a sequence of hexadecimal digits spells, most significant first.
pub open spec fn hex_number(s: Seq<char>) -> int
    decreases s.len(),
{
    if s.len() == 0 {
        0
    } else {
        hex_number(s.drop_last()) * 16 + hex_value(s.last()).unwrap_or(0) as int
    }
}

/// Every character of `s` is a hexadecimal digit.
pub open spec fn all_hex(s: Seq<char>) -> bool {
    forall|i: int| 0 <= i < s.len() ==> #[trigger] hex_value(s[i]) is Some
}

/// The lowercase digit for a value below 16.
pub open spec fn hex_char(d: u64) -> char {
    if d < 10 {
        (('0' as u64) + d) as char
    } else {
        (('a' as u64) + d - 10) as char
    }
}

/// The 16 lowercase hexadecimal digits of `n`, zero-padded, most significant first.
pub open spec fn hex16(n: u64) -> Seq<char> {
    Seq::new(16, |i: int| hex_char(((n as int / pow16(15 - i)) % 16) as u64))
}

/// 16 to the power `e`.
pub open spec fn pow16(e: int) -> int
    decreases e,
{
    if e <= 0 {
        1
    } else {
        16 * pow16(e - 1)
    }
}

/// Reads 16 or fewer hexadecimal digits as a number.
pub fn parse_hex(s: &str) -> (r: Option<u64>)
    ensures
        match r {
            Some(v) => all_hex(s@) && v == hex_number(s@),
            None => !all_hex(s@) || s@.len() > 16,
        },
{
    let n = s.unicode_len();
    if n > 16 {
        return None;
    }
    let mut v: u64 = 0;
    let mut i: usize = 0;
    while i < n
        invariant
            n == s@.len(),
            n <= 16,
            i <= n,
            all_hex(s@.subrange(0, i as int)),
            v == hex_number(s@.subrange(0, i as int)),
            v < pow16(i as int),
        decreases n - i,
    {
        let c = s.get_char(i);
        let d: u64 = if '0' <= c && c <= '9' {
            (c as u64) - ('0' as u64)
        } else if 'a' <= c && c <= 'f' {
            (c as u64) - ('a' as u64) + 10
        } else if 'A' <= c && c <= 'F' {
            (c as u64) - ('A' as u64) + 10
        } else {
            assert(hex_value(s@[i as int]) is None);
            assert(!all_hex(s@));
            return None;
        };
        proof {
            lemma_pow16_bound(i as int);
            lemma_pow16_bound(i + 1);
            let t = s@.subrange(0, i + 1);
            assert(t.drop_last() =~= s@.subrange(0, i as int));
            assert(t.last() == c);
            assert(v * 16 + d < pow16(i + 1)) by (nonlinear_arith)
                requires
                    v < pow16(i as int),
                    d < 16,
                    pow16(i + 1) == 16 * pow16(i as int),
            ;
            assert(all_hex(t)) by {
                assert forall|j: int| 0 <= j < t.len() implies #[trigger] hex_value(t[j]) is Some by {
                    if j < i {
                        assert(t[j] == s@.subrange(0, i as int)[j]);
                    }
                }
            }
        }
        v = v * 16 + d;
        i = i + 1;
    }
    assert(s@.subrange(0, n as int) =~= s@);
    Some(v)
}

proof fn lemma_pow16_bound(i: int)
    requires
        0 <= i <= 16,
    ensures
        pow16(i + 1) == 16 * pow16(i),
        pow16(i) <= pow16(16),
        pow16(16) == 0x1_0000_0000_0000_0000,
    decreases 16 - i,
{
    reveal_with_fuel(pow16, 17);
    if i < 16 {
        lemma_pow16_bound(i + 1);
    }
}


/// The one-character string of a hexadecimal digit, lowercase.
fn hex_digit(d: u64) -> (r: &'static str)
    requires
        d < 16,
    ensures
        r@ == seq![hex_char(d)],
{
    match d {
        0 => {
            proof {
                reveal_strlit("0");
            }
            assert("0"@ =~= seq![hex_char(0)]);
            "0"
        },
        1 => {
            proof {
                reveal_strlit("1");
            }
            assert("1"@ =~= seq![hex_char(1)]);
            "1"
        },
        2 => {
            proof {
                reveal_strlit("2");
            }
            assert("2"@ =~= seq![hex_char(2)]);
            "2"
        },
        3 => {
            proof {
                reveal_strlit("3");
            }
            assert("3"@ =~= seq![hex_char(3)]);
            "3"
        },
        4 => {
            proof {
                reveal_strlit("4");
            }
            assert("4"@ =~= seq![hex_char(4)]);
            "4"
        },
        5 => {
            proof {
                reveal_strlit("5");
            }
            assert("5"@ =~= seq![hex_char(5)]);
            "5"
        },
        6 => {
            proof {
                reveal_strlit("6");
            }
            assert("6"@ =~= seq![hex_char(6)]);
            "6"
        },
        7 => {
            proof {
                reveal_strlit("7");
            }
            assert("7"@ =~= seq![hex_char(7)]);
            "7"
        },
        8 => {
            proof {
                reveal_strlit("8");
            }
            assert("8"@ =~= seq![hex_char(8)]);
            "8"
        },
        9 => {
            proof {
                reveal_strlit("9");
            }
            assert("9"@ =~= seq![hex_char(9)]);
            "9"
        },
        10 => {
            proof {
                reveal_strlit("a");
            }
            assert("a"@ =~= seq![hex_char(10)]);
            "a"
        },
        11 => {
            proof {
                reveal_strlit("b");
            }
            assert("b"@ =~= seq![hex_char(11)]);
            "b"
        },
        12 => {
            proof {
                reveal_strlit("c");
            }
            assert("c"@ =~= seq![hex_char(12)]);
            "c"
        },
        13 => {
            proof {
                reveal_strlit("d");
            }
            assert("d"@ =~= seq![hex_char(13)]);
            "d"
        },
        14 => {
            proof {
                reveal_strlit("e");
            }
            assert("e"@ =~= seq![hex_char(14)]);
            "e"
        },
        _ => {
            proof {
                reveal_strlit("f");
            }
            assert("f"@ =~= seq![hex_char(15)]);
            "f"
        },
    }
}

proof fn lemma_pow16_step(e: int)
    requires
        0 <= e,
    ensures
        pow16(e + 1) == 16 * pow16(e),
        pow16(e) > 0,
    decreases e,
{
    if e > 0 {
        lemma_pow16_step(e - 1);
    }
}

/// The 16 lowercase hexadecimal digits of `n`, zero-padded, as `format!("{:016x}", n)`
/// writes them.
pub fn format_hex16(n: u64) -> (r: String)
    ensures
        r@ == hex16(n),
{
    let mut s = String::new();
    let mut p: u64 = 0x1000_0000_0000_0000;
    let mut i: usize = 0;
    proof {
        reveal_with_fuel(pow16, 16);
    }
    while i < 16
        invariant
            i <= 16,
            i < 16 ==> p == pow16(15 - i),
            p > 0,
            s@ == hex16(n).subrange(0, i as int),
        decreases 16 - i,
    {
        let d = (n / p) % 16;
        let ds = hex_digit(d);
        s.append(ds);
        proof {
            assert(hex16(n)[i as int] == hex_char(((n as int / pow16(15 - i)) % 16) as u64));
            assert(s@ =~= hex16(n).subrange(0, i + 1));
            if i < 15 {
                lemma_pow16_step(14 - i);
                assert(15 - i == (14 - i) + 1);
            }
        }
        if i < 15 {
            assert(p / 16 == pow16(14 - i) && p / 16 > 0) by (nonlinear_arith)
                requires
                    p == 16 * pow16(14 - i),
                    pow16(14 - i) > 0,
            ;
            p = p / 16;
        }
        i = i + 1;
    }
    assert(hex16(n).subrange(0, 16) =~= hex16(n));
    s
}

proof fn lemma_hex_digit_value(d: u64)
    requires
        d < 16,
    ensures
        hex_value(hex_char(d)) == Some(d),
{
}

proof fn lemma_hex16_prefix(n: u64, k: int)
    requires
        0 <= k <= 16,
    ensures
        all_hex(hex16(n).subrange(0, k)),
        hex_number(hex16(n).subrange(0, k)) == n as int / pow16(16 - k),
    decreases k,
{
    lemma_pow16_bound(0);
    if k == 0 {
        assert(hex16(n).subrange(0, 0) =~= Seq::<char>::empty());
        lemma_pow16_bound(16);
        let p = pow16(16);
        assert(n as int / p == 0) by (nonlinear_arith)
            requires
                p == 0x1_0000_0000_0000_0000,
                0 <= n < 0x1_0000_0000_0000_0000,
        ;
    } else {
        lemma_hex16_prefix(n, k - 1);
        let s = hex16(n).subrange(0, k);
        assert(s.drop_last() =~= hex16(n).subrange(0, k - 1));
        let b = pow16(16 - k);
        lemma_pow16_step(16 - k);
        let q = n as int / b;
        let d = (q % 16) as u64;
        assert(s.last() == hex_char(d));
        lemma_hex_digit_value(d);
        vstd::arithmetic::div_mod::lemma_div_denominator(n as int, b, 16);
        vstd::arithmetic::div_mod::lemma_fundamental_div_mod(q, 16);
        assert(b * 16 == pow16(16 - (k - 1)));
        assert(hex_number(s) == (q / 16) * 16 + d as int);
        assert(hex_number(s) == q);
        assert forall|i: int| 0 <= i < s.len() implies #[trigger] hex_value(s[i]) is Some by {
            if i < k - 1 {
                assert(s[i] == hex16(n).subrange(0, k - 1)[i]);
            }
        }
    }
}

/// The 16 digits of a number read back give the number: every digit is a hexadecimal
/// digit and together they spell `n`.
pub proof fn lemma_hex16_roundtrip(n: u64)
    ensures
        hex16(n).len() == 16,
        all_hex(hex16(n)),
        hex_number(hex16(n)) == n,
{
    lemma_hex16_prefix(n, 16);
    assert(hex16(n).subrange(0, 16) =~= hex16(n));
    assert(pow16(0) == 1);
}

} // verus!
