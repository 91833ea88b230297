use vstd::prelude::*;

verus! {

use vstd::arithmetic::div_mod::lemma_fundamental_div_mod_converse;
use vstd::arithmetic::power::pow;
use vstd::string::StringExecFns;

/// The character for one decimal digit.
pub open spec fn spec_digit(d: int) -> char {
    if d == 0 {
        '0'
    } else if d == 1 {
        '1'
    } else if d == 2 {
        '2'
    } else if d == 3 {
        '3'
    } else if d == 4 {
        '4'
    } else if d == 5 {
        '5'
    } else if d == 6 {
        '6'
    } else if d == 7 {
        '7'
    } else if d == 8 {
        '8'
    } else {
        '9'
    }
}

/// The decimal digits of `n`, most significant first, without leading zeros.
pub open spec fn spec_digits(n: nat) -> Seq<char>
    decreases n,
{
    if n < 10 {
        seq![spec_digit(n as int)]
    } else {
        spec_digits(n / 10).push(spec_digit((n % 10) as int))
    }
}

/// Exactly `w` decimal digits of `n`, most significant first, leading zeros
/// kept; only the lowest `w` digits of `n` are used.
pub open spec fn spec_fixed_digits(n: nat, w: nat) -> Seq<char>
    decreases w,
{
    if w == 0 {
        Seq::empty()
    } else {
        spec_fixed_digits(n / 10, (w - 1) as nat).push(spec_digit((n % 10) as int))
    }
}

/// The number a sequence of decimal digits denotes, most significant first.
pub open spec fn digits_val(s: Seq<u8>) -> int
    decreases s.len(),
{
    if s.len() == 0 {
        0
    } else {
        digits_val(s.drop_last()) * 10 + s.last()
    }
}

/// Every entry is a single decimal digit.
pub open spec fn all_digits(s: Seq<u8>) -> bool {
    forall|i: int| 0 <= i < s.len() ==> s[i] <= 9
}

/// The digit characters for a digit sequence.
pub open spec fn chars_of_digits(s: Seq<u8>) -> Seq<char> {
    s.map_values(|d: u8| spec_digit(d as int))
}

/// The length of a number's digit string, for numbers of up to four digits.
pub proof fn lemma_digit_count_small(n: nat)
    requires
        n < 10000,
    ensures
        spec_digits(n).len() == if n < 10 {
            1nat
        } else if n < 100 {
            2nat
        } else if n < 1000 {
            3nat
        } else {
            4nat
        },
    decreases n,
{
    if n >= 10 {
        lemma_digit_count_small(n / 10);
    }
}

/// A digit string of length `w` denotes a value below `pow(10, w)`.
pub proof fn lemma_digits_val_bound(s: Seq<u8>)
    requires
        all_digits(s),
    ensures
        0 <= digits_val(s) < pow(10, s.len()),
    decreases s.len(),
{
    if s.len() == 0 {
        assert(pow(10, 0) == 1) by {
            vstd::arithmetic::power::lemma_pow0(10);
        }
    } else {
        lemma_digits_val_bound(s.drop_last());
        assert(pow(10, s.len()) == 10 * pow(10, (s.len() - 1) as nat)) by {
            vstd::arithmetic::power::lemma_pow_adds(10, (s.len() - 1) as nat, 1);
            vstd::arithmetic::power::lemma_pow1(10);
            vstd::arithmetic::mul::lemma_mul_is_commutative(
                pow(10, (s.len() - 1) as nat),
                10,
            );
        }
        assert(digits_val(s.drop_last()) * 10 <= (pow(10, (s.len() - 1) as nat) - 1) * 10) by {
            vstd::arithmetic::mul::lemma_mul_inequality(
                digits_val(s.drop_last()),
                pow(10, (s.len() - 1) as nat) - 1,
                10,
            );
        }
        assert(digits_val(s.drop_last()) * 10 >= 0) by {
            vstd::arithmetic::mul::lemma_mul_nonnegative(digits_val(s.drop_last()), 10);
        }
    }
}

/// The fixed-width digit characters of the value a digit string denotes are
/// that digit string itself.
pub proof fn lemma_fixed_digits_of_val(s: Seq<u8>)
    requires
        all_digits(s),
    ensures
        spec_fixed_digits(digits_val(s) as nat, s.len()) == chars_of_digits(s),
    decreases s.len(),
{
    if s.len() == 0 {
        assert(spec_fixed_digits(0, 0) =~= chars_of_digits(s));
    } else {
        let v = digits_val(s);
        let hi = digits_val(s.drop_last());
        lemma_digits_val_bound(s.drop_last());
        assert(v == hi * 10 + s.last());
        lemma_fundamental_div_mod_converse(v, 10, hi, s.last() as int);
        assert(v / 10 == hi && v % 10 == s.last());
        lemma_fixed_digits_of_val(s.drop_last());
        assert(chars_of_digits(s.drop_last()) == chars_of_digits(s).drop_last()) by {
            assert(chars_of_digits(s.drop_last()) =~= chars_of_digits(s).drop_last());
        }
        assert(spec_fixed_digits(v as nat, s.len()) =~= chars_of_digits(s));
    }
}

/// Replacing one digit shifts the denoted value by the place value of that
/// position.
pub proof fn lemma_digits_val_update(s: Seq<u8>, k: int, x: u8)
    requires
        0 <= k < s.len(),
    ensures
        digits_val(s.update(k, x)) == digits_val(s) + (x - s[k]) * pow(
            10,
            (s.len() - 1 - k) as nat,
        ),
    decreases s.len(),
{
    let t = s.update(k, x);
    if k == s.len() - 1 {
        assert(t.drop_last() =~= s.drop_last());
        assert(pow(10, 0) == 1) by {
            vstd::arithmetic::power::lemma_pow0(10);
        }
        assert((x - s[k]) * 1 == x - s[k]);
    } else {
        assert(t.drop_last() =~= s.drop_last().update(k, x));
        assert(t.last() == s.last());
        lemma_digits_val_update(s.drop_last(), k, x);
        let w = (s.len() - 2 - k) as nat;
        assert(digits_val(t.drop_last()) == digits_val(s.drop_last()) + (x - s[k]) * pow(10, w));
        assert((digits_val(s.drop_last()) + (x - s[k]) * pow(10, w)) * 10 == digits_val(
            s.drop_last(),
        ) * 10 + (x - s[k]) * pow(10, w) * 10) by {
            vstd::arithmetic::mul::lemma_mul_is_distributive_add_other_way(
                10,
                digits_val(s.drop_last()),
                (x - s[k]) * pow(10, w),
            );
        }
        assert((x - s[k]) * pow(10, w) * 10 == (x - s[k]) * (pow(10, w) * 10)) by {
            vstd::arithmetic::mul::lemma_mul_is_associative(x - s[k], pow(10, w), 10);
        }
        assert(pow(10, w) * 10 == pow(10, (w + 1) as nat)) by {
            vstd::arithmetic::power::lemma_pow1(10);
            vstd::arithmetic::power::lemma_pow_adds(10, w, 1);
        }
    }
}

/// One-character string slice for a decimal digit.
pub fn digit_str(d: u8) -> (r: &'static str)
    requires
        d <= 9,
    ensures
        r@ == seq![spec_digit(d as int)],
{
    let r: &'static str = match d {
        0 => "0",
        1 => "1",
        2 => "2",
        3 => "3",
        4 => "4",
        5 => "5",
        6 => "6",
        7 => "7",
        8 => "8",
        _ => "9",
    };
    proof {
        reveal_strlit("0");
        reveal_strlit("1");
        reveal_strlit("2");
        reveal_strlit("3");
        reveal_strlit("4");
        reveal_strlit("5");
        reveal_strlit("6");
        reveal_strlit("7");
        reveal_strlit("8");
        reveal_strlit("9");
        assert(r@ =~= seq![spec_digit(d as int)]);
    }
    r
}

/// Append the decimal digits of `n`, most significant first.
pub fn push_number(out: &mut String, n: u64)
    ensures
        final(out)@ == old(out)@ + spec_digits(n as nat),
    decreases n,
{
    if n >= 10 {
        push_number(out, n / 10);
        out.append(digit_str((n % 10) as u8));
        proof {
            assert(out@ =~= old(out)@ + spec_digits(n as nat));
        }
    } else {
        out.append(digit_str(n as u8));
        proof {
            assert(out@ =~= old(out)@ + spec_digits(n as nat));
        }
    }
}

/// Append a digit string as characters, most significant first.
pub fn push_digit_seq(out: &mut String, digits: &Vec<u8>)
    requires
        all_digits(digits@),
    ensures
        final(out)@ == old(out)@ + chars_of_digits(digits@),
{
    let mut i: usize = 0;
    while i < digits.len()
        invariant
            i <= digits@.len(),
            all_digits(digits@),
            out@ == old(out)@ + chars_of_digits(digits@.subrange(0, i as int)),
        decreases digits@.len() - i,
    {
        out.append(digit_str(digits[i]));
        proof {
            assert(chars_of_digits(digits@.subrange(0, (i + 1) as int)) =~= chars_of_digits(
                digits@.subrange(0, i as int),
            ) + seq![spec_digit(digits@[i as int] as int)]);
            assert(out@ =~= old(out)@ + chars_of_digits(digits@.subrange(0, (i + 1) as int)));
        }
        i = i + 1;
    }
    proof {
        assert(digits@.subrange(0, digits@.len() as int) =~= digits@);
    }
}

} // verus!
