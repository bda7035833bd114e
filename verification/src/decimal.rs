//! Decimal text of integers and of fixed-point coordinates.

use vstd::prelude::*;

verus! {

/// The character of the decimal digit `d` (for `d < 10`).
pub open spec fn digit_char(d: nat) -> char {
    (d + 48) as char
}

/// Decimal digits of `n`, most significant first, without leading zeros
/// ("0" for zero).
pub open spec fn nat_digits(n: nat) -> Seq<char>
    decreases n,
{
    if n < 10 {
        seq![digit_char(n)]
    } else {
        nat_digits(n / 10).push(digit_char(n % 10))
    }
}

/// The lowest `width` decimal digits of `n`, zero-padded on the left.
pub open spec fn padded_digits(n: nat, width: nat) -> Seq<char>
    decreases width,
{
    if width == 0 {
        Seq::empty()
    } else {
        padded_digits(n / 10, (width - 1) as nat).push(digit_char(n % 10))
    }
}

/// The digits after the decimal point of the fraction `n / 10^width`, with
/// the trailing zeros dropped.
pub open spec fn fraction_digits(n: nat, width: nat) -> Seq<char>
    decreases width,
{
    if width > 0 && n % 10 == 0 {
        fraction_digits(n / 10, (width - 1) as nat)
    } else {
        padded_digits(n, width)
    }
}

/// The number that a string of decimal digits reads as.
pub open spec fn digits_value(s: Seq<char>) -> int
    decreases s.len(),
{
    if s.len() == 0 {
        0
    } else {
        digits_value(s.drop_last()) * 10 + (s.last() as int - 48)
    }
}

/// Ten to the power `k`.
pub open spec fn pow10(k: nat) -> nat
    decreases k,
{
    if k == 0 {
        1
    } else {
        10 * pow10((k - 1) as nat)
    }
}

/// The character of a digit stands for that digit.
proof fn lemma_digit_char(d: nat)
    requires
        d < 10,
    ensures
        digit_char(d) as int == d + 48,
{
}

/// Powers of ten are positive.
proof fn lemma_pow10_positive(k: nat)
    ensures
        pow10(k) > 0,
    decreases k,
{
    if k > 0 {
        lemma_pow10_positive((k - 1) as nat);
    }
}

/// The digits of a number read back as that number.
pub proof fn lemma_nat_digits_value(n: nat)
    ensures
        digits_value(nat_digits(n)) == n,
        nat_digits(n).len() >= 1,
    decreases n,
{
    lemma_digit_char(n % 10);
    let s = nat_digits(n);
    if n >= 10 {
        lemma_nat_digits_value(n / 10);
        assert(s.drop_last() =~= nat_digits(n / 10));
        assert(s.last() == digit_char(n % 10));
        assert(digits_value(s) == digits_value(s.drop_last()) * 10 + (s.last() as int - 48));
    } else {
        assert(s.drop_last() =~= Seq::<char>::empty());
        assert(s.last() == digit_char(n));
        assert(digits_value(s) == digits_value(s.drop_last()) * 10 + (s.last() as int - 48));
    }
}

proof fn lemma_mod_step(n: nat, p: nat)
    requires
        p > 0,
    ensures
        ((n / 10) % p) * 10 + n % 10 == n % (p * 10),
{
    let a = n / 10;
    let b = n % 10;
    let c = a / p;
    let r = a % p;
    assert(n == 10 * a + b);
    assert(a == p * c + r) by (nonlinear_arith)
        requires
            p > 0,
            c == a / p,
            r == a % p,
    ;
    assert(n == c * (p * 10) + (10 * r + b)) by (nonlinear_arith)
        requires
            n == 10 * a + b,
            a == p * c + r,
    ;
    assert(0 <= 10 * r + b < p * 10) by (nonlinear_arith)
        requires
            0 <= r < p,
            0 <= b < 10,
    ;
    vstd::arithmetic::div_mod::lemma_fundamental_div_mod_converse(
        n as int,
        (p * 10) as int,
        c as int,
        (10 * r + b) as int,
    );
}

/// The lowest `width` digits of `n` read back as `n` modulo `10^width`.
proof fn lemma_padded_value(n: nat, width: nat)
    ensures
        padded_digits(n, width).len() == width,
        digits_value(padded_digits(n, width)) == n % pow10(width),
    decreases width,
{
    if width > 0 {
        lemma_padded_value(n / 10, (width - 1) as nat);
        assert(padded_digits(n, width).drop_last() =~= padded_digits(n / 10, (width - 1) as nat));
        lemma_pow10_positive((width - 1) as nat);
        lemma_digit_char(n % 10);
        lemma_mod_step(n, pow10((width - 1) as nat));
    }
}

/// The fraction digits of `n / 10^width` (for `0 < n < 10^width`) are at most
/// `width` digits, end with a digit other than zero, and scaled back by the
/// dropped zeros read as `n`.
proof fn lemma_fraction_value(n: nat, width: nat)
    requires
        0 < n < pow10(width),
    ensures
        1 <= fraction_digits(n, width).len() <= width,
        digits_value(fraction_digits(n, width)) * pow10(
            (width - fraction_digits(n, width).len()) as nat,
        ) == n,
        fraction_digits(n, width).last() != '0',
    decreases width,
{
    if width > 0 && n % 10 == 0 {
        assert(n / 10 < pow10((width - 1) as nat));
        lemma_fraction_value(n / 10, (width - 1) as nat);
        let t = fraction_digits(n / 10, (width - 1) as nat);
        assert(pow10((width - t.len()) as nat) == 10 * pow10((width - 1 - t.len()) as nat));
        let v = digits_value(t);
        let big = pow10((width - t.len()) as nat);
        let small = pow10((width - 1 - t.len()) as nat);
        assert(v * big == 10 * (v * small)) by (nonlinear_arith)
            requires
                big == 10 * small,
        ;
    } else {
        lemma_padded_value(n, width);
        assert(width > 0);
        vstd::arithmetic::div_mod::lemma_small_mod(n, pow10(width));
    }
}

/// The text of a coordinate is exact and has no needless digit: its integer
/// part reads as the whole degrees, and, when there is a fractional part,
/// its digits end with one other than zero and, scaled by the dropped zeros,
/// read as the hundred-thousandths.
pub proof fn lemma_coordinate_text_exact(q: int)
    ensures
        digits_value(nat_digits(magnitude(q) / 100000)) == magnitude(q) / 100000,
        magnitude(q) % 100000 != 0 ==> {
            let f = fraction_digits(magnitude(q) % 100000, 5);
            &&& 1 <= f.len() <= 5
            &&& f.last() != '0'
            &&& digits_value(f) * pow10((5 - f.len()) as nat) == magnitude(q) % 100000
        },
{
    lemma_nat_digits_value(magnitude(q) / 100000);
    if magnitude(q) % 100000 != 0 {
        reveal_with_fuel(pow10, 6);
        assert(pow10(5) == 100000);
        lemma_fraction_value(magnitude(q) % 100000, 5);
    }
}

/// Whether every character of `s` is a decimal digit.
pub open spec fn all_digits(s: Seq<char>) -> bool {
    forall|i: int| 0 <= i < s.len() ==> 48 <= #[trigger] (s[i] as int) <= 57
}

/// The digits of a number are digits, and only zero starts with `0`.
pub proof fn lemma_nat_digits_form(n: nat)
    ensures
        all_digits(nat_digits(n)),
        nat_digits(n).len() > 1 ==> nat_digits(n)[0] != '0',
    decreases n,
{
    lemma_digit_char(n % 10);
    if n >= 10 {
        lemma_nat_digits_form(n / 10);
        let s = nat_digits(n);
        assert(s.drop_last() =~= nat_digits(n / 10));
        assert(s[0] == nat_digits(n / 10)[0]);
        assert forall|i: int| 0 <= i < s.len() implies 48 <= #[trigger] (s[i] as int) <= 57 by {
            if i < s.len() - 1 {
                assert(s[i] == nat_digits(n / 10)[i]);
            }
        }
        if n / 10 < 10 {
            lemma_digit_char(n / 10);
            assert(nat_digits(n / 10) == seq![digit_char(n / 10)]);
        } else {
            lemma_nat_digits_value(n / 100);
            assert(nat_digits(n / 10).len() == nat_digits(n / 10 / 10).len() + 1);
        }
    } else {
        lemma_digit_char(n);
    }
}

/// Zero-padded digits are digits.
proof fn lemma_padded_form(n: nat, width: nat)
    ensures
        all_digits(padded_digits(n, width)),
    decreases width,
{
    if width > 0 {
        lemma_padded_form(n / 10, (width - 1) as nat);
        lemma_digit_char(n % 10);
        let s = padded_digits(n, width);
        assert forall|i: int| 0 <= i < s.len() implies 48 <= #[trigger] (s[i] as int) <= 57 by {
            if i < s.len() - 1 {
                assert(s[i] == padded_digits(n / 10, (width - 1) as nat)[i]);
            }
        }
    }
}

/// Fraction digits are digits.
proof fn lemma_fraction_form(n: nat, width: nat)
    ensures
        all_digits(fraction_digits(n, width)),
    decreases width,
{
    if width > 0 && n % 10 == 0 {
        lemma_fraction_form(n / 10, (width - 1) as nat);
    } else {
        lemma_padded_form(n, width);
    }
}

/// The text of a coordinate reads back as the coordinate: it starts with a
/// minus sign exactly when the coordinate is negative; after the sign come
/// the whole degrees, written in digits without a needless leading zero,
/// and, when the hundred-thousandths are not zero, a point and their digits,
/// the last one not zero, which scaled by the dropped zeros read as them.
pub proof fn lemma_coordinate_text_reads_back(q: int)
    ensures
        ({
            let t = coordinate_text(q);
            let m = if q < 0 {
                -q
            } else {
                q
            };
            &&& t.len() > 0
            &&& (t[0] == '-') == (q < 0)
            &&& exists|whole: Seq<char>, fraction: Seq<char>|
                #![trigger digits_value(whole), digits_value(fraction)]
                {
                    &&& t == (if q < 0 {
                        seq!['-']
                    } else {
                        Seq::<char>::empty()
                    }) + whole + fraction
                    &&& whole.len() >= 1
                    &&& all_digits(whole)
                    &&& whole.len() > 1 ==> whole[0] != '0'
                    &&& digits_value(whole) == m / 100000
                    &&& m % 100000 == 0 ==> fraction.len() == 0
                    &&& m % 100000 != 0 ==> {
                        &&& 2 <= fraction.len() <= 6
                        &&& fraction[0] == '.'
                        &&& all_digits(fraction.drop_first())
                        &&& fraction.last() != '0'
                        &&& digits_value(fraction.drop_first()) * pow10((6 - fraction.len()) as nat)
                            == m % 100000
                    }
                }
        }),
{
    let t = coordinate_text(q);
    let m = magnitude(q);
    let whole = nat_digits(m / 100000);
    let fraction = if m % 100000 == 0 {
        Seq::<char>::empty()
    } else {
        seq!['.'] + fraction_digits(m % 100000, 5)
    };
    lemma_coordinate_text_exact(q);
    lemma_nat_digits_form(m / 100000);
    lemma_digit_char((m / 100000) % 10);
    let sign = if q < 0 {
        seq!['-']
    } else {
        Seq::<char>::empty()
    };
    assert(t =~= sign + whole + fraction);
    if q >= 0 {
        assert(t[0] == whole[0]);
        assert(48 <= (whole[0] as int) <= 57);
    }
    if m % 100000 != 0 {
        let f = fraction_digits(m % 100000, 5);
        lemma_fraction_form(m % 100000, 5);
        assert(fraction.drop_first() =~= f);
        assert(fraction.last() == f.last());
    }
    let _ = digits_value(whole);
    let _ = digits_value(fraction);
}

/// Returns the one-character string of the digit `d`.
fn digit_str(d: u64) -> (r: &'static str)
    requires
        d < 10,
    ensures
        r@ == seq![digit_char(d as nat)],
{
    match d {
        0 => {
            proof {
                reveal_strlit("0");
            }
            "0"
        },
        1 => {
            proof {
                reveal_strlit("1");
            }
            "1"
        },
        2 => {
            proof {
                reveal_strlit("2");
            }
            "2"
        },
        3 => {
            proof {
                reveal_strlit("3");
            }
            "3"
        },
        4 => {
            proof {
                reveal_strlit("4");
            }
            "4"
        },
        5 => {
            proof {
                reveal_strlit("5");
            }
            "5"
        },
        6 => {
            proof {
                reveal_strlit("6");
            }
            "6"
        },
        7 => {
            proof {
                reveal_strlit("7");
            }
            "7"
        },
        8 => {
            proof {
                reveal_strlit("8");
            }
            "8"
        },
        _ => {
            proof {
                reveal_strlit("9");
            }
            "9"
        },
    }
}

/// Appends the decimal digits of `n` to `out`.
pub fn push_decimal(out: &mut String, n: u64)
    ensures
        final(out)@ == old(out)@ + nat_digits(n as nat),
    decreases n,
{
    if n >= 10 {
        push_decimal(out, n / 10);
    }
    out.append(digit_str(n % 10));
    assert(out@ =~= old(out)@ + nat_digits(n as nat));
}

/// Appends the lowest `width` digits of `n`, zero-padded, to `out`.
fn push_padded(out: &mut String, n: u64, width: u64)
    ensures
        final(out)@ == old(out)@ + padded_digits(n as nat, width as nat),
    decreases width,
{
    if width > 0 {
        push_padded(out, n / 10, width - 1);
        out.append(digit_str(n % 10));
        assert(out@ =~= old(out)@ + padded_digits(n as nat, width as nat));
    } else {
        assert(out@ =~= old(out)@ + padded_digits(n as nat, width as nat));
    }
}

/// Appends the digits after the decimal point of `n / 10^width`, trailing
/// zeros dropped, to `out`.
fn push_fraction(out: &mut String, n: u64, width: u64)
    ensures
        final(out)@ == old(out)@ + fraction_digits(n as nat, width as nat),
    decreases width,
{
    if width > 0 && n % 10 == 0 {
        push_fraction(out, n / 10, width - 1);
    } else {
        push_padded(out, n, width);
    }
}

/// Number of hundred-thousandths of a degree in one degree: coordinates are
/// held as integers in this unit.
pub const COORDINATE_SCALE: u64 = 100000;

/// The magnitude of `q` as a natural number.
pub open spec fn magnitude(q: int) -> nat {
    if q < 0 {
        (-q) as nat
    } else {
        q as nat
    }
}

/// The decimal text of `q / 10^5`: a minus sign when negative, the integer
/// part, and, when the fractional part is not zero, a point followed by its
/// digits without trailing zeros (`5252437` gives "52.52437", `-1250000`
/// gives "-12.5", `0` gives "0").
pub open spec fn coordinate_text(q: int) -> Seq<char> {
    let m = magnitude(q);
    let sign = if q < 0 {
        seq!['-']
    } else {
        Seq::empty()
    };
    let fraction = if m % 100000 == 0 {
        Seq::empty()
    } else {
        seq!['.'] + fraction_digits(m % 100000, 5)
    };
    sign + nat_digits(m / 100000) + fraction
}

/// Appends the decimal text of the fixed-point coordinate `q` (in
/// hundred-thousandths) to `out`.
pub fn push_coordinate(out: &mut String, q: i64)
    ensures
        final(out)@ == old(out)@ + coordinate_text(q as int),
{
    let m: u64 = if q < 0 {
        ((-(q + 1)) as u64) + 1
    } else {
        q as u64
    };
    assert(m == magnitude(q as int));
    let ghost start = out@;
    if q < 0 {
        proof {
            reveal_strlit("-");
        }
        out.append("-");
    }
    let ghost signed = out@;
    push_decimal(out, m / COORDINATE_SCALE);
    let ghost whole = out@;
    let frac = m % COORDINATE_SCALE;
    if frac != 0 {
        proof {
            reveal_strlit(".");
        }
        out.append(".");
        push_fraction(out, frac, 5);
    }
    assert(out@ =~= old(out)@ + coordinate_text(q as int));
}

} // verus!
