//! Decimal text: the numeric protocol fields (descriptors, lengths, status
//! codes) parsed from and printed to their decimal notation, with exact
//! specifications relating the text to the mathematical value.

use vstd::prelude::*;
use vstd::string::StrSliceExecFns;

verus! {

/// Whether `c` is a decimal digit.
pub open spec fn is_digit(c: char) -> bool {
    '0' <= c && c <= '9'
}

/// The value of the digit `c`.
pub open spec fn digit_value(c: char) -> int {
    (c as u32) as int - ('0' as u32) as int
}

/// Whether every character of `s` is a decimal digit.
pub open spec fn all_digits(s: Seq<char>) -> bool {
    forall|i: int| 0 <= i < s.len() ==> is_digit(#[trigger] s[i])
}

/// The number denoted by a sequence of decimal digits, most significant
/// first; the empty sequence denotes zero.
pub open spec fn decimal_value(s: Seq<char>) -> int
    decreases s.len(),
{
    if s.len() == 0 {
        0
    } else {
        decimal_value(s.drop_last()) * 10 + digit_value(s.last())
    }
}

/// The digit character of a value below ten.
pub open spec fn digit_char(d: int) -> char {
    if d == 0 {
        '0'
    } else if d == 1 {
        '1'
    } else if d == 2 {
        '2'
    } else if d == 3 {
        '3'
    } else if d == 4 {
        '4'
    } else if d == 5 {
        '5'
    } else if d == 6 {
        '6'
    } else if d == 7 {
        '7'
    } else if d == 8 {
        '8'
    } else {
        '9'
    }
}

/// The decimal notation of `n`: no sign, no leading zero except for zero
/// itself.
pub open spec fn decimal_digits(n: nat) -> Seq<char>
    decreases n,
{
    if n < 10 {
        seq![digit_char(n as int)]
    } else {
        decimal_digits(n / 10).push(digit_char((n % 10) as int))
    }
}

/// Whether `s` is the decimal notation of an integer: digits, optionally
/// preceded by a minus sign.
pub open spec fn is_signed_decimal(s: Seq<char>) -> bool {
    if s.len() > 0 && s[0] == '-' {
        s.len() > 1 && all_digits(s.skip(1))
    } else {
        s.len() > 0 && all_digits(s)
    }
}

/// The integer denoted by an optionally signed digit sequence.
pub open spec fn signed_decimal_value(s: Seq<char>) -> int {
    if s.len() > 0 && s[0] == '-' {
        -decimal_value(s.skip(1))
    } else {
        decimal_value(s)
    }
}

/// The decimal notation of an integer, with a minus sign when negative.
pub open spec fn signed_decimal_digits(v: int) -> Seq<char> {
    if v < 0 {
        seq!['-'] + decimal_digits((-v) as nat)
    } else {
        decimal_digits(v as nat)
    }
}

/// A digit sequence denotes a value of at least zero.
pub proof fn lemma_decimal_value_nonneg(s: Seq<char>)
    requires
        all_digits(s),
    ensures
        decimal_value(s) >= 0,
    decreases s.len(),
{
    if s.len() > 0 {
        assert(all_digits(s.drop_last())) by {
            assert(forall|i: int| 0 <= i < s.len() - 1 ==> s.drop_last()[i] == s[i]);
        }
        lemma_decimal_value_nonneg(s.drop_last());
    }
}

/// A digit sequence denotes at least as much as any of its prefixes.
pub proof fn lemma_decimal_prefix_bound(s: Seq<char>, j: int)
    requires
        all_digits(s),
        0 <= j <= s.len(),
    ensures
        decimal_value(s) >= decimal_value(s.take(j)),
    decreases s.len() - j,
{
    lemma_decimal_value_nonneg(s);
    if j == s.len() {
        assert(s.take(j) =~= s);
    } else {
        lemma_decimal_prefix_bound(s, j + 1);
        let t = s.take(j + 1);
        assert(t.drop_last() =~= s.take(j));
        assert(t.last() == s[j]);
        assert(all_digits(s.take(j))) by {
            assert(forall|i: int| 0 <= i < j ==> s.take(j)[i] == s[i]);
        }
        lemma_decimal_value_nonneg(s.take(j));
        assert(decimal_value(t) == decimal_value(s.take(j)) * 10 + digit_value(s[j]));
    }
}

/// The digit characters denote their values.
pub proof fn lemma_digit_char_value(d: int)
    requires
        0 <= d <= 9,
    ensures
        is_digit(digit_char(d)),
        digit_value(digit_char(d)) == d,
{
}

/// Printing a number and reading the text back yields the number: the
/// notation is all digits, nonempty, and denotes `n`.
pub proof fn lemma_decimal_digits_value(n: nat)
    ensures
        decimal_digits(n).len() >= 1,
        all_digits(decimal_digits(n)),
        decimal_value(decimal_digits(n)) == n,
    decreases n,
{
    if n < 10 {
        lemma_digit_char_value(n as int);
        let s = decimal_digits(n);
        assert(s.len() == 1);
        assert(s.last() == digit_char(n as int));
        assert(s.drop_last() =~= Seq::<char>::empty());
        assert(decimal_value(s.drop_last()) == 0);
        assert(decimal_value(s) == n as int);
    } else {
        lemma_decimal_digits_value(n / 10);
        lemma_digit_char_value((n % 10) as int);
        let s = decimal_digits(n);
        let p = decimal_digits(n / 10);
        assert(s.drop_last() =~= p);
        assert(s.last() == digit_char((n % 10) as int));
        assert(decimal_value(s.drop_last()) == decimal_value(p));
        assert(decimal_value(s) == decimal_value(p) * 10 + digit_value(digit_char((n % 10) as int)));
        assert(decimal_value(s) == (n / 10) * 10 + n % 10);
        assert((n / 10) * 10 + n % 10 == n as int) by (nonlinear_arith);
        assert(forall|i: int|
            0 <= i < s.len() ==> #[trigger] s[i] == (if i < p.len() {
                p[i]
            } else {
                s.last()
            }));
    }
}

/// Parses an unsigned decimal number. Yields the denoted value exactly when
/// the text is one or more digits and the value fits the machine word;
/// anything else — empty text, a stray character, a value too large — yields
/// nothing.
pub fn parse_usize(s: &str) -> (r: Option<usize>)
    ensures
        r is Some <==> (s@.len() > 0 && all_digits(s@) && decimal_value(s@) <= usize::MAX),
        r matches Some(v) ==> v == decimal_value(s@),
{
    let n = s.unicode_len();
    if n == 0 {
        return None;
    }
    let mut acc: usize = 0;
    let mut i: usize = 0;
    while i < n
        invariant
            n == s@.len(),
            0 < n,
            i <= n,
            all_digits(s@.take(i as int)),
            acc == decimal_value(s@.take(i as int)),
        decreases n - i,
    {
        let c = s.get_char(i);
        let cv = c as u32;
        if cv < 48 || cv > 57 {
            proof {
                assert(!is_digit(s@[i as int]));
            }
            return None;
        }
        let d = (cv - 48) as usize;
        proof {
            assert(s@.take(i + 1).drop_last() =~= s@.take(i as int));
            assert(s@.take(i + 1).last() == s@[i as int]);
            assert(forall|k: int|
                0 <= k < i + 1 ==> #[trigger] s@.take(i + 1)[k] == (if k < i {
                    s@.take(i as int)[k]
                } else {
                    s@[i as int]
                }));
        }
        if acc > (usize::MAX - d) / 10 {
            // The prefix up to and including this digit already denotes more
            // than the machine word holds, and a longer digit string denotes
            // no less.
            proof {
                assert(decimal_value(s@.take(i + 1)) == acc * 10 + d);
                assert(acc * 10 + d > usize::MAX) by (nonlinear_arith)
                    requires
                        acc > (usize::MAX - d) / 10,
                        0 <= d <= 9,
                ;
                if all_digits(s@) {
                    assert(s@.take(n as int) =~= s@);
                    lemma_decimal_prefix_bound(s@, i + 1);
                }
            }
            return None;
        }
        proof {
            assert(acc * 10 + d <= usize::MAX) by (nonlinear_arith)
                requires
                    acc <= (usize::MAX - d) / 10,
                    0 <= d <= 9,
            ;
        }
        acc = acc * 10 + d;
        i = i + 1;
    }
    proof {
        assert(s@.take(n as int) =~= s@);
    }
    Some(acc)
}

/// Parses the digits of `s` from position `start` on as an unsigned number
/// of at most `limit`. Yields the value exactly when there is at least one
/// digit, nothing else follows, and the value is within the limit.
fn parse_magnitude(s: &str, start: usize, limit: u32) -> (r: Option<u32>)
    requires
        start <= s@.len(),
    ensures
        r is Some <==> (s@.len() - start > 0 && all_digits(s@.skip(start as int)) && decimal_value(
            s@.skip(start as int),
        ) <= limit),
        r matches Some(v) ==> v == decimal_value(s@.skip(start as int)),
{
    let n = s.unicode_len();
    if n == start {
        return None;
    }
    let ghost body = s@.skip(start as int);
    let mut acc: u32 = 0;
    let mut i: usize = start;
    while i < n
        invariant
            n == s@.len(),
            body == s@.skip(start as int),
            start < n,
            start <= i <= n,
            acc <= limit,
            all_digits(body.take(i - start)),
            acc == decimal_value(body.take(i - start)),
        decreases n - i,
    {
        let c = s.get_char(i);
        let cv = c as u32;
        proof {
            assert(body[i - start] == s@[i as int]);
        }
        if cv < 48 || cv > 57 {
            proof {
                assert(!is_digit(body[i - start]));
            }
            return None;
        }
        let d = cv - 48;
        proof {
            assert(body.take(i - start + 1).drop_last() =~= body.take(i - start));
            assert(body.take(i - start + 1).last() == body[i - start]);
            assert(forall|k: int|
                0 <= k < i - start + 1 ==> #[trigger] body.take(i - start + 1)[k] == (if k < i
                    - start {
                    body.take(i - start)[k]
                } else {
                    body[i - start]
                }));
        }
        if d > limit || acc > (limit - d) / 10 {
            // This digit already pushes the prefix's value past the limit,
            // and a longer digit string denotes no less.
            proof {
                lemma_decimal_value_nonneg(body.take(i - start));
                assert(acc * 10 + d > limit) by (nonlinear_arith)
                    requires
                        d > limit || acc > (limit - d) / 10,
                        0 <= d <= 9,
                        acc >= 0,
                ;
                assert(decimal_value(body.take(i - start + 1)) > limit);
                if all_digits(body) {
                    assert(body.take(n - start) =~= body);
                    lemma_decimal_prefix_bound(body, i - start + 1);
                }
            }
            return None;
        }
        proof {
            assert(acc * 10 + d <= limit) by (nonlinear_arith)
                requires
                    d <= limit,
                    acc <= (limit - d) / 10,
                    0 <= d <= 9,
                    acc >= 0,
            ;
        }
        acc = acc * 10 + d;
        i = i + 1;
    }
    proof {
        assert(body.take(n - start) =~= body);
    }
    Some(acc)
}

/// Parses a signed decimal number into a 32-bit integer. Yields the denoted
/// value exactly when the text is an optional minus sign followed by one or
/// more digits and the value fits the type.
pub fn parse_i32(s: &str) -> (r: Option<i32>)
    ensures
        r is Some <==> (is_signed_decimal(s@) && i32::MIN <= signed_decimal_value(s@)
            <= i32::MAX),
        r matches Some(v) ==> v == signed_decimal_value(s@),
{
    let n = s.unicode_len();
    if n == 0 {
        return None;
    }
    if s.get_char(0) == '-' {
        match parse_magnitude(s, 1, 2147483648) {
            Some(m) => {
                if m == 2147483648 {
                    Some(i32::MIN)
                } else {
                    Some(-(m as i32))
                }
            },
            None => None,
        }
    } else {
        match parse_magnitude(s, 0, 2147483647) {
            Some(m) => {
                proof {
                    assert(s@.skip(0) =~= s@);
                }
                Some(m as i32)
            },
            None => {
                proof {
                    assert(s@.skip(0) =~= s@);
                }
                None
            },
        }
    }
}

/// The text of one digit.
fn digit_str(d: usize) -> (s: &'static str)
    requires
        d < 10,
    ensures
        s@ =~= seq![digit_char(d as int)],
{
    proof {
        reveal_strlit("0");
        reveal_strlit("1");
        reveal_strlit("2");
        reveal_strlit("3");
        reveal_strlit("4");
        reveal_strlit("5");
        reveal_strlit("6");
        reveal_strlit("7");
        reveal_strlit("8");
        reveal_strlit("9");
    }
    match d {
        0 => "0",
        1 => "1",
        2 => "2",
        3 => "3",
        4 => "4",
        5 => "5",
        6 => "6",
        7 => "7",
        8 => "8",
        _ => "9",
    }
}

/// Prints an unsigned number in decimal.
pub fn to_decimal(n: usize) -> (s: String)
    ensures
        s@ == decimal_digits(n as nat),
    decreases n,
{
    if n < 10 {
        digit_str(n).to_owned()
    } else {
        let mut s = to_decimal(n / 10);
        s.append(digit_str(n % 10));
        proof {
            assert(s@ =~= decimal_digits((n / 10) as nat).push(digit_char((n % 10) as int)));
        }
        s
    }
}

/// Prints a 32-bit integer in decimal, with a minus sign when negative.
pub fn to_signed_decimal(v: i32) -> (s: String)
    ensures
        s@ == signed_decimal_digits(v as int),
{
    if v >= 0 {
        to_decimal(v as usize)
    } else {
        let mut s = String::new();
        s.append("-");
        let magnitude = if v == i32::MIN {
            2147483648usize
        } else {
            (-v) as usize
        };
        s.append(to_decimal(magnitude).as_str());
        proof {
            reveal_strlit("-");
            assert(s@ =~= seq!['-'] + decimal_digits((-(v as int)) as nat));
        }
        s
    }
}

} // verus!
