//! Character-level helpers: whitespace, decimal numbers, and building strings.

use vstd::prelude::*;

verus! {

/// The characters that Unicode classifies as `White_Space`
/// (the set that `char::is_whitespace` tests).
pub open spec fn is_white(c: char) -> bool {
    ('\u{9}' <= c && c <= '\u{d}') || c == ' ' || c == '\u{85}' || c == '\u{a0}' || c == '\u{1680}'
        || ('\u{2000}' <= c && c <= '\u{200a}') || c == '\u{2028}' || c == '\u{2029}'
        || c == '\u{202f}' || c == '\u{205f}' || c == '\u{3000}'
}

pub fn char_is_white(c: char) -> (r: bool)
    ensures
        r == is_white(c),
{
    ('\u{9}' <= c && c <= '\u{d}') || c == ' ' || c == '\u{85}' || c == '\u{a0}' || c == '\u{1680}'
        || ('\u{2000}' <= c && c <= '\u{200a}') || c == '\u{2028}' || c == '\u{2029}'
        || c == '\u{202f}' || c == '\u{205f}' || c == '\u{3000}'
}

pub open spec fn is_digit(c: char) -> bool {
    '0' <= c && c <= '9'
}

pub open spec fn digit_value(c: char) -> int {
    c as int - '0' as int
}

pub open spec fn digit_char(d: int) -> char {
    (d + '0' as int) as char
}

/// The decimal digits of a natural number, most significant first.
pub open spec fn digits_of(n: nat) -> Seq<char>
    decreases n,
{
    if n < 10 {
        seq![digit_char(n as int)]
    } else {
        digits_of(n / 10).push(digit_char((n % 10) as int))
    }
}

/// The decimal text of an integer, with a leading `-` when it is negative.
pub open spec fn decimal_of(i: int) -> Seq<char> {
    if i < 0 {
        seq!['-'] + digits_of((-i) as nat)
    } else {
        digits_of(i as nat)
    }
}

/// The value of a run of decimal digits.
pub open spec fn digits_value(t: Seq<char>) -> int
    decreases t.len(),
{
    if t.len() == 0 {
        0
    } else {
        digits_value(t.drop_last()) * 10 + digit_value(t.last())
    }
}

pub open spec fn all_digits(t: Seq<char>) -> bool {
    forall|i: int| 0 <= i < t.len() ==> is_digit(#[trigger] t[i])
}

/// What a decimal integer literal denotes: an optional sign, then at least
/// one digit. `None` when the text is no such literal.
pub open spec fn integer_literal(t: Seq<char>) -> Option<int> {
    if t.len() > 0 && (t[0] == '+' || t[0] == '-') {
        let d = t.subrange(1, t.len() as int);
        if d.len() > 0 && all_digits(d) {
            if t[0] == '-' {
                Some(-digits_value(d))
            } else {
                Some(digits_value(d))
            }
        } else {
            None
        }
    } else if t.len() > 0 && all_digits(t) {
        Some(digits_value(t))
    } else {
        None
    }
}

proof fn lemma_digits_value_grows(t: Seq<char>, j: int)
    requires
        all_digits(t),
        0 <= j <= t.len(),
    ensures
        digits_value(t.subrange(0, j)) <= digits_value(t),
        0 <= digits_value(t.subrange(0, j)),
    decreases t.len(),
{
    if t.len() > 0 {
        if j == t.len() {
            assert(t.subrange(0, j) =~= t);
            lemma_digits_value_grows(t.drop_last(), j - 1);
            assert(t.drop_last().subrange(0, j - 1) =~= t.drop_last());
        } else {
            lemma_digits_value_grows(t.drop_last(), j);
            assert(t.drop_last().subrange(0, j) =~= t.subrange(0, j));
            assert(is_digit(t[t.len() - 1]));
        }
    } else {
        assert(t.subrange(0, j) =~= t);
    }
}

/// Reads the digits of `s[from..]` as a number; `None` when a character is no
/// digit or the value does not fit in `u64`.
fn read_digits(s: &str, from: usize) -> (r: Option<u64>)
    requires
        from < s@.len(),
    ensures
        r is Some <==> (all_digits(s@.subrange(from as int, s@.len() as int)) && digits_value(
            s@.subrange(from as int, s@.len() as int),
        ) <= u64::MAX),
        r matches Some(v) ==> v == digits_value(s@.subrange(from as int, s@.len() as int)),
{
    let n = s.unicode_len();
    let ghost t = s@.subrange(from as int, s@.len() as int);
    let mut acc: u64 = 0;
    let mut i: usize = from;
    while i < n
        invariant
            n == s@.len(),
            from <= i <= n,
            t == s@.subrange(from as int, s@.len() as int),
            all_digits(s@.subrange(from as int, i as int)),
            acc == digits_value(s@.subrange(from as int, i as int)),
        decreases n - i,
    {
        let c = s.get_char(i);
        if !('0' <= c && c <= '9') {
            assert(t[i - from] == c);
            return None;
        }
        let d: u64 = (c as u32 - '0' as u32) as u64;
        let ghost pre = s@.subrange(from as int, i as int);
        let ghost next = s@.subrange(from as int, i + 1);
        assert(next.drop_last() =~= pre);
        assert(all_digits(next));
        assert(t.subrange(0, i + 1 - from) =~= next);
        match acc.checked_mul(10) {
            Some(m) => match m.checked_add(d) {
                Some(v) => {
                    acc = v;
                },
                None => {
                    proof {
                        if all_digits(t) {
                            lemma_digits_value_grows(t, i + 1 - from);
                        }
                    }
                    return None;
                },
            },
            None => {
                proof {
                    if all_digits(t) {
                        lemma_digits_value_grows(t, i + 1 - from);
                    }
                }
                return None;
            },
        }
        i = i + 1;
    }
    assert(s@.subrange(from as int, i as int) =~= t);
    Some(acc)
}

/// Reads `s` as a decimal `i64` literal, as `i64::from_str` does: an optional
/// sign and at least one digit, with a value in range.
pub fn parse_i64(s: &str) -> (r: Option<i64>)
    ensures
        r is Some <==> (integer_literal(s@) is Some && i64::MIN <= integer_literal(s@)->0
            <= i64::MAX),
        r matches Some(v) ==> v == integer_literal(s@)->0,
{
    let n = s.unicode_len();
    if n == 0 {
        return None;
    }
    let c0 = s.get_char(0);
    if c0 == '+' || c0 == '-' {
        if n == 1 {
            return None;
        }
        match read_digits(s, 1) {
            Some(m) => {
                if c0 == '-' {
                    if m <= 9223372036854775808 {
                        Some((0 - (m as i128)) as i64)
                    } else {
                        None
                    }
                } else if m <= 9223372036854775807 {
                    Some(m as i64)
                } else {
                    None
                }
            },
            None => None,
        }
    } else {
        match read_digits(s, 0) {
            Some(m) => {
                assert(s@.subrange(0, s@.len() as int) =~= s@);
                if m <= 9223372036854775807 {
                    Some(m as i64)
                } else {
                    None
                }
            },
            None => {
                assert(s@.subrange(0, s@.len() as int) =~= s@);
                None
            },
        }
    }
}

/// The one-character text of a decimal digit.
fn digit_text(d: u64) -> (r: &'static str)
    requires
        d < 10,
    ensures
        r@ == seq![digit_char(d as int)],
{
    proof {
        reveal_strlit("0");
        reveal_strlit("1");
        reveal_strlit("2");
        reveal_strlit("3");
        reveal_strlit("4");
        reveal_strlit("5");
        reveal_strlit("6");
        reveal_strlit("7");
        reveal_strlit("8");
        reveal_strlit("9");
    }
    if d == 0 {
        "0"
    } else if d == 1 {
        "1"
    } else if d == 2 {
        "2"
    } else if d == 3 {
        "3"
    } else if d == 4 {
        "4"
    } else if d == 5 {
        "5"
    } else if d == 6 {
        "6"
    } else if d == 7 {
        "7"
    } else if d == 8 {
        "8"
    } else {
        "9"
    }
}

fn append_digits(s: &mut String, n: u64)
    ensures
        final(s)@ == old(s)@ + digits_of(n as nat),
    decreases n,
{
    if n >= 10 {
        append_digits(s, n / 10);
    }
    s.append(digit_text(n % 10));
    assert(final(s)@ =~= old(s)@ + digits_of(n as nat));
}

/// The decimal text of `i`.
pub fn decimal_string(i: i64) -> (r: String)
    ensures
        r@ == decimal_of(i as int),
{
    let mut s = String::new();
    if i < 0 {
        proof {
            reveal_strlit("-");
        }
        s.append("-");
        let m: u64 = (0 - (i as i128)) as u64;
        append_digits(&mut s, m);
    } else {
        append_digits(&mut s, i as u64);
    }
    s
}

} // verus!
