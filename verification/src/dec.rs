//! Base-10 text encoding of signed 64-bit integers, used for the
//! string-encoded `expiration_timestamp` store field: an optional sign
//! followed by decimal digits, exactly the form `str::parse::<i64>`
//! accepts.

use vstd::prelude::*;
use vstd::string::*;

verus! {

/// The magnitude of `i64::MIN`: the largest magnitude a decimal string
/// may denote and still fit a signed 64-bit integer.
pub const I64_MIN_MAGNITUDE: u64 = 9223372036854775808;

/// True for the ten ASCII decimal digits.
pub open spec fn is_digit(c: char) -> bool {
    48 <= c as u32 && c as u32 <= 57
}

/// Numeric value of a decimal digit character.
pub open spec fn digit_val(c: char) -> int {
    c as u32 - 48
}

/// The decimal digit character for a value below ten.
pub open spec fn digit_char(d: int) -> char {
    if d == 0 {
        '0'
    } else if d == 1 {
        '1'
    } else if d == 2 {
        '2'
    } else if d == 3 {
        '3'
    } else if d == 4 {
        '4'
    } else if d == 5 {
        '5'
    } else if d == 6 {
        '6'
    } else if d == 7 {
        '7'
    } else if d == 8 {
        '8'
    } else {
        '9'
    }
}

/// True when every character of `s` is a decimal digit.
pub open spec fn all_digits(s: Seq<char>) -> bool {
    forall|i: int| 0 <= i < s.len() ==> is_digit(#[trigger] s[i])
}

/// The non-negative value that a string of decimal digits denotes.
pub open spec fn dec_val(s: Seq<char>) -> int
    decreases s.len(),
{
    if s.len() == 0 {
        0
    } else {
        dec_val(s.drop_last()) * 10 + digit_val(s.last())
    }
}

/// The canonical digit string of a non-negative value: no leading zeros
/// except for zero itself.
pub open spec fn dec_digits(n: nat) -> Seq<char>
    decreases n,
{
    if n < 10 {
        seq![digit_char(n as int)]
    } else {
        dec_digits(n / 10).push(digit_char((n % 10) as int))
    }
}

/// The canonical decimal string of an integer: a minus sign for negative
/// values, then the digits of the magnitude.
pub open spec fn dec_str(v: int) -> Seq<char> {
    if v < 0 {
        seq!['-'] + dec_digits((-v) as nat)
    } else {
        dec_digits(v as nat)
    }
}

/// The value an optionally signed decimal string denotes as an `i64`:
/// `None` for the empty string, a missing magnitude, a non-digit
/// character, or a value outside the `i64` range. This is the acceptance
/// set of `str::parse::<i64>`.
pub open spec fn parse_i64_spec(s: Seq<char>) -> Option<i64> {
    if s.len() == 0 {
        None
    } else {
        let neg = s[0] == '-';
        let ds = if s[0] == '-' || s[0] == '+' {
            s.drop_first()
        } else {
            s
        };
        if ds.len() == 0 || !all_digits(ds) {
            None
        } else {
            let v = if neg {
                -dec_val(ds)
            } else {
                dec_val(ds)
            };
            if i64::MIN <= v <= i64::MAX {
                Some(v as i64)
            } else {
                None
            }
        }
    }
}

/// A digit string denotes a non-negative value.
pub proof fn lemma_dec_val_nonneg(s: Seq<char>)
    requires
        all_digits(s),
    ensures
        dec_val(s) >= 0,
    decreases s.len(),
{
    if s.len() > 0 {
        assert(forall|i: int|
            0 <= i < s.drop_last().len() ==> #[trigger] s.drop_last()[i] == s[i]);
        lemma_dec_val_nonneg(s.drop_last());
    }
}

/// Extending a digit string never decreases its value.
pub proof fn lemma_dec_val_prefix(s: Seq<char>, k: int)
    requires
        all_digits(s),
        0 <= k <= s.len(),
    ensures
        dec_val(s.take(k)) <= dec_val(s),
    decreases s.len(),
{
    if k < s.len() {
        assert(forall|i: int|
            0 <= i < s.drop_last().len() ==> #[trigger] s.drop_last()[i] == s[i]);
        lemma_dec_val_prefix(s.drop_last(), k);
        assert(s.take(k) =~= s.drop_last().take(k));
        lemma_dec_val_nonneg(s.drop_last());
    } else {
        assert(s.take(k) =~= s);
    }
}

/// A digit's character denotes the digit back.
proof fn lemma_digit_char_val(d: int)
    requires
        0 <= d <= 9,
    ensures
        is_digit(digit_char(d)),
        digit_val(digit_char(d)) == d,
{
    assert('0' as u32 == 48);
    assert('1' as u32 == 49);
    assert('2' as u32 == 50);
    assert('3' as u32 == 51);
    assert('4' as u32 == 52);
    assert('5' as u32 == 53);
    assert('6' as u32 == 54);
    assert('7' as u32 == 55);
    assert('8' as u32 == 56);
    assert('9' as u32 == 57);
}

/// The canonical digit string of a value really is made of digits, is
/// never empty, and denotes the value back.
pub proof fn lemma_dec_digits_val(n: nat)
    ensures
        dec_digits(n).len() >= 1,
        all_digits(dec_digits(n)),
        dec_val(dec_digits(n)) == n,
    decreases n,
{
    if n < 10 {
        assert(dec_digits(n) == seq![digit_char(n as int)]);
        assert(dec_digits(n).drop_last() =~= Seq::<char>::empty());
        assert(dec_val(Seq::<char>::empty()) == 0);
        lemma_digit_char_val(n as int);
        assert(dec_val(dec_digits(n)) == 0 * 10 + digit_val(digit_char(n as int)));
    } else {
        lemma_digit_char_val((n % 10) as int);
        lemma_dec_digits_val(n / 10);
        let tail = digit_char((n % 10) as int);
        assert(dec_digits(n).drop_last() =~= dec_digits(n / 10));
        assert(dec_digits(n).last() == tail);
        assert(digit_val(tail) == n % 10);
        assert(dec_val(dec_digits(n)) == (n / 10) * 10 + n % 10);
    }
}

/// Round trip for timestamps: rendering any `i64` and parsing the result
/// yields the value back.
pub proof fn lemma_dec_round_trip(v: i64)
    ensures
        parse_i64_spec(dec_str(v as int)) == Some(v),
{
    let s = dec_str(v as int);
    if v >= 0 {
        lemma_dec_digits_val(v as nat);
        assert(is_digit(s[0]));
        assert(s[0] != '-' && s[0] != '+');
    } else {
        let mag = (-(v as int)) as nat;
        lemma_dec_digits_val(mag);
        assert(s == seq!['-'] + dec_digits(mag));
        assert(s[0] == '-');
        assert(s.drop_first() =~= dec_digits(mag));
        assert(dec_val(s.drop_first()) == mag);
        assert(-dec_val(s.drop_first()) == v as int);
    }
}

/// Parses an optionally signed decimal string as an `i64`, accepting
/// exactly the strings `parse_i64_spec` accepts.
pub fn parse_i64(s: &str) -> (r: Option<i64>)
    ensures
        r == parse_i64_spec(s@),
{
    let n = s.unicode_len();
    if n == 0 {
        return None;
    }
    let c0 = s.get_char(0);
    let neg = c0 == '-';
    let start: usize = if c0 == '-' || c0 == '+' {
        1
    } else {
        0
    };
    let ghost ds: Seq<char> = if s@[0] == '-' || s@[0] == '+' {
        s@.drop_first()
    } else {
        s@
    };
    proof {
        assert(ds =~= s@.subrange(start as int, n as int));
    }
    if n == start {
        return None;
    }
    let mut i: usize = start;
    let mut acc: u64 = 0;
    while i < n
        invariant
            start <= i <= n,
            n == s@.len(),
            start <= 1,
            neg == (s@[0] == '-'),
            ds == (if s@[0] == '-' || s@[0] == '+' {
                s@.drop_first()
            } else {
                s@
            }),
            ds == s@.subrange(start as int, n as int),
            all_digits(s@.subrange(start as int, i as int)),
            acc == dec_val(s@.subrange(start as int, i as int)),
            acc <= I64_MIN_MAGNITUDE,
        decreases n - i,
    {
        let c = s.get_char(i);
        let u = c as u32;
        if u < 48 || u > 57 {
            proof {
                assert(ds[i - start] == s@[i as int]);
                assert(!is_digit(ds[i - start]));
                assert(!all_digits(ds));
                assert(parse_i64_spec(s@) is None);
            }
            return None;
        }
        let d = (u - 48) as u64;
        proof {
            let pre = s@.subrange(start as int, i as int);
            let ext = s@.subrange(start as int, i + 1 as int);
            assert(ext.drop_last() =~= pre);
            assert(ext.last() == s@[i as int]);
            assert(dec_val(ext) == acc * 10 + d);
            assert(forall|m: int| 0 <= m < ext.len() ==> #[trigger] ext[m] == s@[start + m]);
        }
        if acc > (I64_MIN_MAGNITUDE - d) / 10 {
            proof {
                let ext = s@.subrange(start as int, i + 1 as int);
                assert(dec_val(ext) > I64_MIN_MAGNITUDE);
                if all_digits(ds) {
                    assert(ext =~= ds.take(i + 1 - start));
                    lemma_dec_val_prefix(ds, i + 1 - start);
                    assert(dec_val(ds) > I64_MIN_MAGNITUDE);
                    assert(-dec_val(ds) < i64::MIN);
                    assert(dec_val(ds) > i64::MAX);
                }
                assert(parse_i64_spec(s@) is None);
            }
            return None;
        }
        acc = acc * 10 + d;
        i += 1;
    }
    proof {
        assert(s@.subrange(start as int, n as int) == ds);
    }
    if neg {
        if acc == I64_MIN_MAGNITUDE {
            Some(i64::MIN)
        } else {
            Some(-(acc as i64))
        }
    } else {
        if acc == I64_MIN_MAGNITUDE {
            None
        } else {
            Some(acc as i64)
        }
    }
}

/// The digit characters of a digit sequence, least significant first.
pub open spec fn digits_chars(ds: Seq<u64>) -> Seq<char> {
    ds.map_values(|d: u64| digit_char(d as int))
}

/// One-character string for a decimal digit value.
fn digit_str(d: u64) -> (r: &'static str)
    requires
        d < 10,
    ensures
        r@ == seq![digit_char(d as int)],
{
    if d == 0 {
        proof {
            reveal_strlit("0");
            assert("0"@ =~= seq![digit_char(0)]);
        }
        return "0";
    }
    if d == 1 {
        proof {
            reveal_strlit("1");
            assert("1"@ =~= seq![digit_char(1)]);
        }
        return "1";
    }
    if d == 2 {
        proof {
            reveal_strlit("2");
            assert("2"@ =~= seq![digit_char(2)]);
        }
        return "2";
    }
    if d == 3 {
        proof {
            reveal_strlit("3");
            assert("3"@ =~= seq![digit_char(3)]);
        }
        return "3";
    }
    if d == 4 {
        proof {
            reveal_strlit("4");
            assert("4"@ =~= seq![digit_char(4)]);
        }
        return "4";
    }
    if d == 5 {
        proof {
            reveal_strlit("5");
            assert("5"@ =~= seq![digit_char(5)]);
        }
        return "5";
    }
    if d == 6 {
        proof {
            reveal_strlit("6");
            assert("6"@ =~= seq![digit_char(6)]);
        }
        return "6";
    }
    if d == 7 {
        proof {
            reveal_strlit("7");
            assert("7"@ =~= seq![digit_char(7)]);
        }
        return "7";
    }
    if d == 8 {
        proof {
            reveal_strlit("8");
            assert("8"@ =~= seq![digit_char(8)]);
        }
        return "8";
    }
    proof {
        reveal_strlit("9");
        assert("9"@ =~= seq![digit_char(9)]);
    }
    "9"
}

/// Renders an `i64` as its canonical decimal string, the form
/// `i64::to_string` produces.
pub fn i64_to_string(v: i64) -> (r: String)
    ensures
        r@ == dec_str(v as int),
{
    let mut m: u64 = if v == i64::MIN {
        I64_MIN_MAGNITUDE
    } else if v < 0 {
        (-v) as u64
    } else {
        v as u64
    };
    let ghost m0: int = m as int;
    proof {
        assert(m0 == if v < 0 {
            -(v as int)
        } else {
            v as int
        });
    }
    let mut digits: Vec<u64> = Vec::new();
    proof {
        assert(dec_digits(m0 as nat) =~= dec_digits(m as nat) + digits_chars(digits@).reverse());
    }
    while m >= 10
        invariant
            m0 >= 0,
            dec_digits(m0 as nat) == dec_digits(m as nat) + digits_chars(digits@).reverse(),
            forall|k: int| 0 <= k < digits@.len() ==> #[trigger] digits@[k] < 10,
        decreases m,
    {
        let d = m % 10;
        proof {
            let old_digits = digits@;
            assert(dec_digits(m as nat) == dec_digits((m as nat) / 10).push(
                digit_char((m % 10) as int),
            ));
            assert(digits_chars(old_digits.push(d)).reverse() =~= seq![digit_char(d as int)]
                + digits_chars(old_digits).reverse());
            assert(dec_digits((m as nat) / 10).push(digit_char(d as int))
                + digits_chars(old_digits).reverse() =~= dec_digits((m as nat) / 10) + (seq![
                digit_char(d as int),
            ] + digits_chars(old_digits).reverse()));
        }
        digits.push(d);
        m = m / 10;
    }
    let mut r = String::new();
    if v < 0 {
        r.append("-");
    }
    r.append(digit_str(m));
    let ghost sign: Seq<char> = if v < 0 {
        seq!['-']
    } else {
        Seq::empty()
    };
    proof {
        reveal_strlit("-");
        assert(r@ =~= sign + dec_digits(m as nat));
    }
    let ghost top: Seq<char> = sign + dec_digits(m as nat);
    let mut j = digits.len();
    while j > 0
        invariant
            j <= digits.len(),
            forall|k: int| 0 <= k < digits@.len() ==> #[trigger] digits@[k] < 10,
            r@ == top + digits_chars(digits@).reverse().take(digits@.len() - j),
        decreases j,
    {
        j = j - 1;
        let d = digits[j];
        r.append(digit_str(d));
        proof {
            let rev = digits_chars(digits@).reverse();
            assert(rev[digits@.len() - 1 - j] == digit_char(digits@[j as int] as int));
            assert(rev.take(digits@.len() - j) =~= rev.take(digits@.len() - j - 1).push(
                rev[digits@.len() - 1 - j],
            ));
        }
    }
    proof {
        let rev = digits_chars(digits@).reverse();
        assert(rev.take(digits@.len() as int) =~= rev);
        assert(r@ == sign + (dec_digits(m as nat) + rev));
        assert(sign + (dec_digits(m as nat) + rev) =~= sign + dec_digits(m0 as nat));
        if v < 0 {
            assert(r@ =~= dec_str(v as int));
        } else {
            assert(r@ =~= dec_str(v as int));
        }
    }
    r
}

} // verus!
