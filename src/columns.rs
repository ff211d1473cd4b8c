use vstd::prelude::*;
use vstd::string::{StrSliceExecFns, StringExecFns};

verus! {

/// Longest integer part accepted in a stored tolerance.
pub const MAX_INTEGER_DIGITS: usize = 9;

pub open spec fn is_digit(c: char) -> bool {
    48 <= c as u32 <= 57
}

pub open spec fn digit_value(c: char) -> int {
    c as u32 as int - 48
}

pub open spec fn all_digits(s: Seq<char>) -> bool {
    forall|i: int| 0 <= i < s.len() ==> is_digit(#[trigger] s[i])
}

/// The decimal number that a run of digits spells.
pub open spec fn digits_value(s: Seq<char>) -> int
    decreases s.len(),
{
    if s.len() == 0 {
        0
    } else {
        digits_value(s.drop_last()) * 10 + digit_value(s.last())
    }
}

/// Position of the first `'.'`, or the length when there is none.
pub open spec fn first_dot(s: Seq<char>) -> int
    decreases s.len(),
{
    if s.len() == 0 {
        0
    } else if s[0] == '.' {
        0
    } else {
        1 + first_dot(s.skip(1))
    }
}

/// The digit at a fraction position, 0 past its end.
pub open spec fn fraction_digit(frac: Seq<char>, i: int) -> int {
    if i < frac.len() {
        digit_value(frac[i])
    } else {
        0
    }
}

/// A stored tolerance: a decimal percentage `digits` or `digits.digits`,
/// with at most `MAX_INTEGER_DIGITS` integer digits, read in thousandths of
/// a percent and rounded half up on the fourth fraction digit.
pub open spec fn tolerance_text_value(s: Seq<char>) -> Option<u64> {
    let d = first_dot(s);
    let int_part = s.take(d);
    let frac = if d < s.len() {
        s.skip(d + 1)
    } else {
        Seq::<char>::empty()
    };
    if 1 <= int_part.len() <= MAX_INTEGER_DIGITS && all_digits(int_part) && all_digits(frac) && (d
        < s.len() ==> frac.len() >= 1) {
        Some(
            (digits_value(int_part) * 1000 + fraction_digit(frac, 0) * 100 + fraction_digit(frac, 1)
                * 10 + fraction_digit(frac, 2) + if fraction_digit(frac, 3) >= 5 {
                1int
            } else {
                0int
            }) as u64,
        )
    } else {
        None
    }
}

proof fn lemma_first_dot(s: Seq<char>, i: int)
    requires
        0 <= i <= s.len(),
        forall|k: int| 0 <= k < i ==> s[k] != '.',
        i == s.len() || s[i] == '.',
    ensures
        first_dot(s) == i,
    decreases i,
{
    if i > 0 {
        lemma_first_dot(s.skip(1), i - 1);
    }
}

/// Ten to the power `n`.
pub open spec fn pow10(n: nat) -> int
    decreases n,
{
    if n == 0 {
        1
    } else {
        10 * pow10((n - 1) as nat)
    }
}

fn digit_of(c: char) -> (r: Option<u64>)
    ensures
        r is Some <==> is_digit(c),
        r matches Some(v) ==> v as int == digit_value(c),
{
    let v = c as u32;
    if v >= 48 && v <= 57 {
        Some((v - 48) as u64)
    } else {
        None
    }
}

/// Reads a stored tolerance (see `tolerance_text_value`); `None` when the
/// text is not such a number.
pub fn tolerance_from_text(text: &str) -> (r: Option<u64>)
    ensures
        r == tolerance_text_value(text@),
{
    let ghost s = text@;
    let n = text.unicode_len();
    let mut i: usize = 0;
    let mut int_val: u64 = 0;
    while i < n && text.get_char(i) != '.'
        invariant
            n == s.len(),
            s == text@,
            0 <= i <= n,
            i <= MAX_INTEGER_DIGITS,
            forall|k: int| 0 <= k < i ==> s[k] != '.',
            all_digits(s.take(i as int)),
            int_val as int == digits_value(s.take(i as int)),
            int_val < pow10(i as nat),
        decreases n - i,
    {
        let c = text.get_char(i);
        let dv = match digit_of(c) {
            Some(v) => v,
            None => {
                proof {
                    lemma_stop_integer(s, i as int);
                }
                return None;
            },
        };
        if i >= MAX_INTEGER_DIGITS {
            proof {
                lemma_stop_integer(s, i as int);
            }
            return None;
        }
        assert(s.take(i + 1).drop_last() =~= s.take(i as int));
        assert(pow10((i + 1) as nat) == 10 * pow10(i as nat));
        assert(int_val * 10 + dv < 10 * pow10(i as nat)) by (nonlinear_arith)
            requires
                int_val < pow10(i as nat),
                dv <= 9,
        ;
        assert(pow10(i as nat) <= 100000000) by {
            reveal_with_fuel(pow10, 10);
        }
        int_val = int_val * 10 + dv;
        i = i + 1;
    }
    proof {
        lemma_first_dot(s, i as int);
    }
    if i == 0 {
        return None;
    }
    let ghost d = i as int;
    let ghost frac = if d < s.len() {
        s.skip(d + 1)
    } else {
        Seq::<char>::empty()
    };
    let mut digits: Vec<u64> = vec![0, 0, 0, 0];
    if i < n {
        let start = i + 1;
        if start == n {
            return None;
        }
        let mut j: usize = start;
        while j < n
            invariant
                n == s.len(),
                s == text@,
                start == d + 1,
                first_dot(s) == d,
                d < s.len(),
                start <= j <= n,
                frac == s.skip(d + 1),
                forall|k: int| start <= k < j ==> is_digit(#[trigger] s[k]),
                digits@.len() == 4,
                forall|q: int| 0 <= q < 4 ==> digits@[q] <= 9,
                forall|q: int| 0 <= q < 4 ==> digits@[q] as int == if start + q < j {
                    digit_value(s[start + q])
                } else {
                    0
                },
            decreases n - j,
        {
            let c = text.get_char(j);
            match digit_of(c) {
                Some(v) => {
                    if j - start < 4 {
                        digits.set(j - start, v);
                    }
                },
                None => {
                    assert(frac[j - start] == s[j as int]);
                    assert(!all_digits(frac));
                    return None;
                },
            }
            j = j + 1;
        }
        assert forall|k: int| 0 <= k < frac.len() implies is_digit(#[trigger] frac[k]) by {
            assert(frac[k] == s[start + k]);
        }
        assert forall|q: int| 0 <= q < 4 implies digits@[q] as int == fraction_digit(frac, q) by {
            if q < frac.len() {
                assert(frac[q] == s[start + q]);
            }
        }
    } else {
        assert(frac.len() == 0);
    }
    assert(digits@.len() == 4);
    assert(forall|q: int| 0 <= q < 4 ==> digits@[q] <= 9);
    let round: u64 = if digits[3] >= 5 {
        1
    } else {
        0
    };
    assert(int_val < 1000000000) by {
        reveal_with_fuel(pow10, 10);
    }
    Some(int_val * 1000 + digits[0] * 100 + digits[1] * 10 + digits[2] + round)
}

proof fn lemma_stop_integer(s: Seq<char>, i: int)
    requires
        0 <= i < s.len(),
        forall|k: int| 0 <= k < i ==> s[k] != '.',
        s[i] != '.',
        !is_digit(s[i]) || i >= MAX_INTEGER_DIGITS,
    ensures
        tolerance_text_value(s) is None,
{
    lemma_first_dot_past(s, i + 1);
    let d = first_dot(s);
    assert(s.take(d)[i] == s[i]);
}

proof fn lemma_first_dot_past(s: Seq<char>, i: int)
    requires
        0 <= i <= s.len(),
        forall|k: int| 0 <= k < i ==> s[k] != '.',
    ensures
        i <= first_dot(s) <= s.len(),
    decreases s.len(),
{
    if s.len() > 0 {
        if i > 0 {
            lemma_first_dot_past(s.skip(1), i - 1);
        } else {
            lemma_first_dot_past(s.skip(1), 0);
        }
    }
}

/// The digit characters, by value.
pub open spec fn digit_chars() -> Seq<char> {
    seq!['0', '1', '2', '3', '4', '5', '6', '7', '8', '9']
}

/// The decimal digits of a number, most significant first, without
/// leading zeros.
pub open spec fn decimal_digits(n: nat) -> Seq<char>
    decreases n,
{
    if n < 10 {
        seq![digit_chars()[n as int]]
    } else {
        decimal_digits(n / 10).push(digit_chars()[(n % 10) as int])
    }
}

/// How a tolerance is stored: its whole percent, a point, and three digits
/// of thousandths (2600 is `"2.600"`).
pub open spec fn tolerance_text(t: u64) -> Seq<char> {
    decimal_digits((t / 1000) as nat) + seq!['.'] + seq![
        digit_chars()[((t % 1000) / 100) as int],
        digit_chars()[((t % 100) / 10) as int],
        digit_chars()[(t % 10) as int],
    ]
}

proof fn lemma_digit_chars(d: int)
    requires
        0 <= d < 10,
    ensures
        is_digit(digit_chars()[d]),
        digit_value(digit_chars()[d]) == d,
        digit_chars()[d] != '.',
{
}

proof fn lemma_decimal_digits(n: nat, k: nat)
    requires
        1 <= k,
        n < pow10(k),
    ensures
        all_digits(decimal_digits(n)),
        digits_value(decimal_digits(n)) == n,
        1 <= decimal_digits(n).len() <= k,
    decreases n,
{
    if n < 10 {
        lemma_digit_chars(n as int);
        assert(decimal_digits(n).drop_last() =~= Seq::<char>::empty());
        assert(digits_value(Seq::<char>::empty()) == 0);
        assert(decimal_digits(n).last() == digit_chars()[n as int]);
    } else {
        assert(k >= 2) by {
            if k == 1 {
                assert(pow10(1) == 10) by {
                    reveal_with_fuel(pow10, 2);
                }
            }
        }
        assert(pow10(k) == 10 * pow10((k - 1) as nat));
        assert(n / 10 < pow10((k - 1) as nat));
        lemma_decimal_digits(n / 10, (k - 1) as nat);
        lemma_digit_chars((n % 10) as int);
        let s = decimal_digits(n);
        assert(s.drop_last() =~= decimal_digits(n / 10));
        assert(s.last() == digit_chars()[(n % 10) as int]);
        assert(digits_value(s) == digits_value(s.drop_last()) * 10 + digit_value(s.last()));
        assert(n == (n / 10) * 10 + n % 10);
        assert forall|i: int| 0 <= i < s.len() implies is_digit(#[trigger] s[i]) by {
            if i < s.len() - 1 {
                assert(s[i] == decimal_digits(n / 10)[i]);
            }
        }
    }
}

/// What `tolerance_to_text` writes, `tolerance_from_text` reads back.
pub proof fn lemma_tolerance_text_round_trip(t: u64)
    requires
        t < 1_000_000_000_000,
    ensures
        tolerance_text_value(tolerance_text(t)) == Some(t),
{
    let whole = (t / 1000) as nat;
    assert(pow10(9) == 1_000_000_000) by {
        reveal_with_fuel(pow10, 10);
    }
    lemma_decimal_digits(whole, 9);
    let d = decimal_digits(whole);
    let f0 = ((t % 1000) / 100) as int;
    let f1 = ((t % 100) / 10) as int;
    let f2 = (t % 10) as int;
    lemma_digit_chars(f0);
    lemma_digit_chars(f1);
    lemma_digit_chars(f2);
    let frac = seq![digit_chars()[f0], digit_chars()[f1], digit_chars()[f2]];
    let s = tolerance_text(t);
    assert(s == d + seq!['.'] + frac);
    assert forall|k: int| 0 <= k < d.len() implies s[k] != '.' by {
        assert(s[k] == d[k]);
        assert(is_digit(d[k]));
    }
    assert(s[d.len() as int] == '.');
    lemma_first_dot(s, d.len() as int);
    assert(s.take(d.len() as int) =~= d);
    assert(s.skip(d.len() as int + 1) =~= frac);
    assert(all_digits(frac));
    assert(t as int == whole * 1000 + f0 * 100 + f1 * 10 + f2);
}

/// The text for one digit.
fn digit_text(d: u64) -> (r: &'static str)
    requires
        d < 10,
    ensures
        r@ == seq![digit_chars()[d as int]],
{
    proof {
        reveal_strlit("0");
        reveal_strlit("1");
        reveal_strlit("2");
        reveal_strlit("3");
        reveal_strlit("4");
        reveal_strlit("5");
        reveal_strlit("6");
        reveal_strlit("7");
        reveal_strlit("8");
        reveal_strlit("9");
    }
    let r = if d == 0 {
        "0"
    } else if d == 1 {
        "1"
    } else if d == 2 {
        "2"
    } else if d == 3 {
        "3"
    } else if d == 4 {
        "4"
    } else if d == 5 {
        "5"
    } else if d == 6 {
        "6"
    } else if d == 7 {
        "7"
    } else if d == 8 {
        "8"
    } else {
        "9"
    };
    assert(r@ =~= seq![digit_chars()[d as int]]);
    r
}

fn append_decimal(out: &mut String, n: u64)
    ensures
        final(out)@ == old(out)@ + decimal_digits(n as nat),
    decreases n,
{
    if n >= 10 {
        append_decimal(out, n / 10);
    }
    out.append(digit_text(n % 10));
    assert(final(out)@ =~= old(out)@ + decimal_digits(n as nat));
}

/// Writes a tolerance as it is stored (see `tolerance_text`).
pub fn tolerance_to_text(t: u64) -> (r: String)
    ensures
        r@ == tolerance_text(t),
        t < 1_000_000_000_000 ==> tolerance_text_value(r@) == Some(t),
{
    proof {
        reveal_strlit(".");
        if t < 1_000_000_000_000 {
            lemma_tolerance_text_round_trip(t);
        }
    }
    let mut r = String::new();
    append_decimal(&mut r, t / 1000);
    r.append(".");
    r.append(digit_text((t % 1000) / 100));
    r.append(digit_text((t % 100) / 10));
    r.append(digit_text(t % 10));
    assert(r@ =~= tolerance_text(t));
    r
}

} // verus!
