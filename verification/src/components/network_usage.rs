use vstd::prelude::*;

verus! {

use vstd::arithmetic::div_mod::{
    lemma_fundamental_div_mod,
    lemma_fundamental_div_mod_converse,
    lemma_div_denominator,
    lemma_div_pos_is_pos,
    lemma_div_is_ordered,
    lemma_div_by_self,
    lemma_mod_division_less_than_divisor,
    lemma_multiply_divide_lt,
};
use vstd::arithmetic::mul::lemma_mul_inequality;
use vstd::arithmetic::power::{
    pow,
    lemma_pow0,
    lemma_pow1,
    lemma_pow_adds,
    lemma_pow_increases,
};
use crate::component::Component;
use crate::error::{ComponentError, ErrorKind};
use vstd::string::StringExecFns;
use crate::digits::{
    spec_digits,
    spec_fixed_digits,
    digits_val,
    all_digits,
    lemma_digits_val_bound,
    lemma_fixed_digits_of_val,
    lemma_digits_val_update,
    push_number,
    push_digit_seq,
};

/// The base a throughput figure is scaled by: powers of 1024 or of 1000.
#[derive(Clone, Copy, Debug, PartialEq, Eq, Structural)]
pub enum Scale {
    Binary,
    Decimal,
}

/// The numeric base of a scale.
pub open spec fn spec_base(s: Scale) -> int {
    match s {
        Scale::Decimal => 1000,
        Scale::Binary => 1024,
    }
}

impl Scale {
    /// The numeric base of this scale.
    pub fn base(&self) -> (r: u16)
        ensures
            r == spec_base(*self),
    {
        match *self {
            Scale::Decimal => 1000,
            Scale::Binary => 1024,
        }
    }
}

/// Which of an interface's two byte counters is sampled.
#[derive(Clone, Copy, Debug, PartialEq, Eq, Structural)]
pub enum Direction {
    Incoming,
    Outgoing,
}

/// How often `n` can be divided by `b` before the quotient falls below `b`;
/// the exponent of the largest power of `b` that is at most `n` (zero for
/// `n == 0`).
pub open spec fn spec_power(n: nat, b: nat) -> nat
    recommends
        b >= 2,
    decreases n,
    when b >= 2
    via spec_power_decreases
{
    if n < b {
        0
    } else {
        1 + spec_power(n / b, b)
    }
}

#[via_fn]
proof fn spec_power_decreases(n: nat, b: nat) {
    if n >= b {
        vstd::arithmetic::div_mod::lemma_div_decreases(n as int, b as int);
        lemma_div_pos_is_pos(n as int, b as int);
    }
}

/// `spec_power(n, b)` is exactly the floor of the base-`b` logarithm of `n`:
/// `b^power <= n < b^(power + 1)`.
pub proof fn lemma_spec_power_bounds(n: nat, b: nat)
    requires
        b >= 2,
        n >= 1,
    ensures
        pow(b as int, spec_power(n, b)) <= n,
        n < pow(b as int, spec_power(n, b) + 1),
    decreases n,
{
    let bi = b as int;
    let ni = n as int;
    let p = spec_power(n, b);
    if n < b {
        lemma_pow0(bi);
        lemma_pow1(bi);
    } else {
        let q = n / b;
        let qi = q as int;
        assert(q >= 1) by {
            lemma_div_is_ordered(bi, ni, bi);
            lemma_div_by_self(bi);
        }
        assert(q < n) by {
            vstd::arithmetic::div_mod::lemma_div_decreases(ni, bi);
        }
        lemma_spec_power_bounds(q, b);
        let p1 = spec_power(q, b);
        assert(p == p1 + 1);
        lemma_fundamental_div_mod(ni, bi);
        lemma_mod_division_less_than_divisor(ni, bi);
        lemma_pow1(bi);
        lemma_pow_adds(bi, p1, 1);
        lemma_pow_adds(bi, p1 + 1, 1);
        // lower bound: pow(b, p) == pow(b, p1) * b <= q * b <= n
        assert(pow(bi, p1) * bi <= qi * bi) by {
            lemma_mul_inequality(pow(bi, p1), qi, bi);
        }
        assert(qi * bi <= ni) by (nonlinear_arith)
            requires
                ni == bi * qi + ni % bi,
                ni % bi >= 0,
        ;
        // upper bound: n < (q + 1) * b <= pow(b, p1 + 1) * b == pow(b, p + 1)
        assert(ni < (qi + 1) * bi) by (nonlinear_arith)
            requires
                ni == bi * qi + ni % bi,
                ni % bi < bi,
        ;
        assert((qi + 1) * bi <= pow(bi, p1 + 1) * bi) by {
            lemma_mul_inequality(qi + 1, pow(bi, p1 + 1), bi);
        }
    }
}

/// The largest power of the scale's base that is at most `number` (one when
/// `number` is zero), together with its exponent.
fn scale_divisor(number: u64, scale: Scale) -> (r: (u64, u8))
    ensures
        r.1 as nat == spec_power(number as nat, spec_base(scale) as nat),
        r.0 == pow(spec_base(scale), r.1 as nat),
        r.0 >= 1,
        number >= 1 ==> r.0 <= number,
{
    let base: u64 = scale.base() as u64;
    let mut power: u8 = 0;
    let mut div: u64 = 1;
    proof {
        lemma_pow0(spec_base(scale));
        lemma_pow0(2);
    }
    while number / div >= base
        invariant
            base == spec_base(scale),
            1 <= div,
            div as int == pow(spec_base(scale), power as nat),
            power as nat + spec_power((number / div) as nat, base as nat) == spec_power(
                number as nat,
                base as nat,
            ),
            number >= 1 ==> div <= number,
            pow(2, power as nat) <= div,
        decreases number - div,
    {
        proof {
            let di = div as int;
            let bi = base as int;
            let ni = number as int;
            lemma_fundamental_div_mod(ni, di);
            lemma_mod_division_less_than_divisor(ni, di);
            assert(di * bi <= ni) by (nonlinear_arith)
                requires
                    ni == di * (ni / di) + ni % di,
                    ni % di >= 0,
                    ni / di >= bi,
                    di >= 1,
                    bi >= 2,
            ;
            assert(di * bi >= 2 * di) by (nonlinear_arith)
                requires
                    di >= 1,
                    bi >= 2,
            ;
            lemma_pow1(spec_base(scale));
            lemma_pow_adds(spec_base(scale), power as nat, 1);
            lemma_pow1(2);
            lemma_pow_adds(2, power as nat, 1);
            assert(pow(2, (power + 1) as nat) <= di * bi) by (nonlinear_arith)
                requires
                    pow(2, (power + 1) as nat) == pow(2, power as nat) * 2,
                    pow(2, power as nat) <= di,
                    bi >= 2,
                    di >= 1,
            ;
            assert(power < 64) by {
                if power >= 64 {
                    lemma_pow_increases(2, 64, power as nat);
                    vstd::arithmetic::power2::lemma2_to64_rest();
                    vstd::arithmetic::power2::lemma_pow2(64);
                }
            }
            lemma_div_denominator(ni, di, bi);
        }
        div = div * base;
        power = power + 1;
    }
    (div, power)
}

/// Scale a positive byte rate to a coefficient and a power of the scale's
/// base: the power is the floor of the base logarithm of `number`, and the
/// coefficient is `number` divided by that power of the base, so that the
/// coefficient lies in `[1, base)` for positive inputs.
pub fn get_number_scale(number: u64, scale: Scale) -> (r: (u64, u8))
    ensures
        r.1 as nat == spec_power(number as nat, spec_base(scale) as nat),
        r.0 == number as int / pow(spec_base(scale), r.1 as nat),
        number >= 1 ==> pow(spec_base(scale), r.1 as nat) <= number && (number as int) < pow(
            spec_base(scale),
            (r.1 + 1) as nat,
        ) && 1 <= r.0 < spec_base(scale),
        number == 0 ==> r == (0u64, 0u8),
{
    let (div, power) = scale_divisor(number, scale);
    proof {
        if number >= 1 {
            lemma_spec_power_bounds(number as nat, spec_base(scale) as nat);
            lemma_div_is_ordered(div as int, number as int, div as int);
            lemma_div_by_self(div as int);
            lemma_pow_adds(spec_base(scale), power as nat, 1);
            lemma_pow1(spec_base(scale));
            assert((number as int) < pow(spec_base(scale), power as nat) * spec_base(scale));
            lemma_multiply_divide_lt(number as int, div as int, spec_base(scale));
            lemma_div_pos_is_pos(number as int, div as int);
        }
    }
    (number / div, power)
}

/// The unit suffix for a power of a scale's base.
pub open spec fn spec_prefix(scale: Scale, power: nat) -> Seq<char> {
    match scale {
        Scale::Decimal => if power == 0 {
            "B/s"@
        } else if power == 1 {
            "kb/s"@
        } else if power == 2 {
            "Mb/s"@
        } else if power == 3 {
            "Gb/s"@
        } else if power == 4 {
            "Tb/s"@
        } else {
            "X/s"@
        },
        Scale::Binary => if power == 0 {
            "B/s"@
        } else if power == 1 {
            "KiB/s"@
        } else if power == 2 {
            "MiB/s"@
        } else if power == 3 {
            "GiB/s"@
        } else if power == 4 {
            "TiB/s"@
        } else {
            "X/s"@
        },
    }
}

/// The unit suffix displayed for a power of the scale's base; powers past the
/// table fall back to a generic unit.
pub fn get_prefix(scale: Scale, power: u8) -> (r: &'static str)
    ensures
        r@ == spec_prefix(scale, power as nat),
{
    match (scale, power) {
        (Scale::Decimal, 0) | (Scale::Binary, 0) => "B/s",
        (Scale::Decimal, 1) => "kb/s",
        (Scale::Decimal, 2) => "Mb/s",
        (Scale::Decimal, 3) => "Gb/s",
        (Scale::Decimal, 4) => "Tb/s",
        (Scale::Binary, 1) => "KiB/s",
        (Scale::Binary, 2) => "MiB/s",
        (Scale::Binary, 3) => "GiB/s",
        (Scale::Binary, 4) => "TiB/s",
        _ => "X/s",
    }
}

/// An exact quotient `n / d` rounded to the nearest integer, halves upward.
pub open spec fn spec_round_div(n: int, d: int) -> int {
    (2 * n + d) / (2 * d)
}

/// Rounding splits into the floor quotient plus a carry: the rounded
/// quotient is `n / d`, plus one exactly when twice the remainder reaches
/// `d`.
pub proof fn lemma_round_div_split(n: int, d: int)
    requires
        n >= 0,
        d >= 1,
    ensures
        spec_round_div(n, d) == n / d + if 2 * (n % d) >= d {
            1int
        } else {
            0int
        },
{
    let a = n / d;
    let r = n % d;
    lemma_fundamental_div_mod(n, d);
    lemma_mod_division_less_than_divisor(n, d);
    lemma_div_pos_is_pos(n, d);
    if 2 * r >= d {
        assert(2 * n + d == (a + 1) * (2 * d) + (2 * r - d)) by (nonlinear_arith)
            requires
                n == d * a + r,
        ;
        lemma_fundamental_div_mod_converse(2 * n + d, 2 * d, a + 1, 2 * r - d);
    } else {
        assert(2 * n + d == a * (2 * d) + (2 * r + d)) by (nonlinear_arith)
            requires
                n == d * a + r,
        ;
        lemma_fundamental_div_mod_converse(2 * n + d, 2 * d, a, 2 * r + d);
    }
}

/// One long-division step: extending the dividend by one decimal digit
/// extends the quotient by one digit and keeps the remainder below the
/// divisor.
proof fn lemma_long_division_step(
    mean: int,
    div: int,
    i: nat,
    v: int,
    rem: int,
    d: int,
    new_rem: int,
)
    requires
        div >= 1,
        mean >= 0,
        0 <= rem < div,
        v == mean * pow(10, i) / div,
        rem == mean * pow(10, i) % div,
        d == rem * 10 / div,
        new_rem == rem * 10 % div,
    ensures
        0 <= d <= 9,
        0 <= new_rem < div,
        v * 10 + d == mean * pow(10, (i + 1) as nat) / div,
        new_rem == mean * pow(10, (i + 1) as nat) % div,
{
    let n_i = mean * pow(10, i);
    lemma_pow_adds(10, i, 1);
    lemma_pow1(10);
    assert(pow(10, i) >= 1) by {
        vstd::arithmetic::power::lemma_pow_positive(10, i);
    }
    assert(n_i >= 0) by {
        vstd::arithmetic::mul::lemma_mul_nonnegative(mean, pow(10, i));
    }
    assert(mean * pow(10, (i + 1) as nat) == n_i * 10) by (nonlinear_arith)
        requires
            pow(10, (i + 1) as nat) == pow(10, i) * 10,
            n_i == mean * pow(10, i),
    ;
    lemma_fundamental_div_mod(n_i, div);
    lemma_fundamental_div_mod(rem * 10, div);
    lemma_mod_division_less_than_divisor(rem * 10, div);
    lemma_div_pos_is_pos(rem * 10, div);
    assert(rem * 10 < div * 10) by (nonlinear_arith)
        requires
            rem < div,
    ;
    lemma_multiply_divide_lt(rem * 10, div, 10);
    assert(n_i * 10 == (v * 10 + d) * div + new_rem) by (nonlinear_arith)
        requires
            n_i == div * v + rem,
            rem * 10 == div * d + new_rem,
    ;
    lemma_fundamental_div_mod_converse(n_i * 10, div, v * 10 + d, new_rem);
}

/// How many fraction digits keep `percision` significant digits of a
/// coefficient whose integer part is `q`: what `percision` leaves over after
/// the integer digits, and none when they already fill it.
pub open spec fn spec_fraction_digits(q: nat, percision: nat) -> nat {
    let d = spec_digits(q).len();
    if percision > d {
        (percision - d) as nat
    } else {
        0
    }
}

/// The text displayed for a mean byte rate: the scaled coefficient rounded
/// half-up to `percision` significant digits, a space, and the unit suffix
/// for the scale's power.
pub open spec fn spec_rate_string(mean: nat, scale: Scale, percision: nat) -> Seq<char>
    recommends
        percision >= 1,
{
    let b = spec_base(scale);
    let p = spec_power(mean, b as nat);
    let div = pow(b, p);
    let f = spec_fraction_digits((mean as int / div) as nat, percision);
    let scaled = spec_round_div(mean as int * pow(10, f), div);
    let ip = scaled / pow(10, f);
    let fp = scaled % pow(10, f);
    spec_digits(ip as nat) + (if f == 0 {
        Seq::<char>::empty()
    } else {
        seq!['.'] + spec_fixed_digits(fp as nat, f)
    }) + seq![' '] + spec_prefix(scale, p)
}

/// Format a mean byte rate for display as `"{coefficient} {unit}"`, the
/// coefficient rounded half-up to `percision` significant digits.
#[verifier::rlimit(60)]
pub fn format_rate(mean: u64, scale: Scale, percision: u8) -> (r: String)
    requires
        percision >= 1,
    ensures
        r@ == spec_rate_string(mean as nat, scale, percision as nat),
{
    let (div, power) = scale_divisor(mean, scale);
    let q: u64 = mean / div;
    let mut rem: u64 = mean % div;
    proof {
        lemma_pow0(10);
        lemma_fundamental_div_mod(mean as int, div as int);
        lemma_mod_division_less_than_divisor(mean as int, div as int);
        lemma_div_pos_is_pos(mean as int, div as int);
        if mean >= 1 {
            lemma_spec_power_bounds(mean as nat, spec_base(scale) as nat);
            lemma_pow_adds(spec_base(scale), power as nat, 1);
            lemma_pow1(spec_base(scale));
            lemma_multiply_divide_lt(mean as int, div as int, spec_base(scale));
        }
        assert(q < 1024);
        crate::digits::lemma_digit_count_small(q as nat);
    }
    let int_digits: usize = if q >= 1000 {
        4
    } else if q >= 100 {
        3
    } else if q >= 10 {
        2
    } else {
        1
    };
    let f: usize = if (percision as usize) > int_digits {
        percision as usize - int_digits
    } else {
        0
    };
    proof {
        assert(f as nat == spec_fraction_digits(q as nat, percision as nat));
    }
    let mut frac: Vec<u8> = Vec::new();
    let mut i: usize = 0;
    while i < f
        invariant
            i <= f,
            1 <= div,
            q < 1024,
            frac@.len() == i,
            all_digits(frac@),
            q as int * pow(10, i as nat) + digits_val(frac@) == mean as int * pow(10, i as nat)
                / (div as int),
            rem as int == mean as int * pow(10, i as nat) % (div as int),
            rem < div,
        decreases f - i,
    {
        let wide: u128 = (rem as u128) * 10;
        let digit: u8 = (wide / (div as u128)) as u8;
        let new_rem: u64 = (wide % (div as u128)) as u64;
        proof {
            let v = q as int * pow(10, i as nat) + digits_val(frac@);
            lemma_long_division_step(
                mean as int,
                div as int,
                i as nat,
                v,
                rem as int,
                (rem as int * 10) / (div as int),
                (rem as int * 10) % (div as int),
            );
            assert(frac@.push(digit).drop_last() =~= frac@);
            lemma_pow_adds(10, i as nat, 1);
            lemma_pow1(10);
            assert(q as int * pow(10, (i + 1) as nat) == (q as int * pow(10, i as nat)) * 10)
                by (nonlinear_arith)
                requires
                    pow(10, (i + 1) as nat) == pow(10, i as nat) * 10,
            ;
        }
        frac.push(digit);
        rem = new_rem;
        i = i + 1;
    }
    let ghost n_f = mean as int * pow(10, f as nat);
    let ghost vf = q as int * pow(10, f as nat) + digits_val(frac@);
    let round_up: bool = (rem as u128) * 2 >= (div as u128);
    let ghost scaled = spec_round_div(n_f, div as int);
    proof {
        vstd::arithmetic::power::lemma_pow_positive(10, f as nat);
        vstd::arithmetic::mul::lemma_mul_nonnegative(mean as int, pow(10, f as nat));
        lemma_round_div_split(n_f, div as int);
        lemma_digits_val_bound(frac@);
        vstd::arithmetic::mul::lemma_mul_nonnegative(q as int, pow(10, f as nat));
        assert(scaled == vf + if round_up {
            1int
        } else {
            0int
        });
    }
    let mut ip: u64 = q;
    if round_up {
        let mut idx: usize = f;
        let mut carry: bool = true;
        proof {
            lemma_pow0(10);
        }
        while carry && idx > 0
            invariant
                idx <= f,
                frac@.len() == f,
                all_digits(frac@),
                ip == q,
                q < 1024,
                (if carry {
                    ip as int * pow(10, f as nat) + digits_val(frac@) + pow(10, (f - idx) as nat)
                } else {
                    ip as int * pow(10, f as nat) + digits_val(frac@)
                }) == scaled,
            decreases idx + if carry {
                1int
            } else {
                0int
            },
        {
            let dig = frac[idx - 1];
            let ghost frac0 = frac@;
            if dig == 9 {
                frac.set(idx - 1, 0);
                proof {
                    lemma_digits_val_update(frac0, (idx - 1) as int, 0);
                    assert(digits_val(frac@) == digits_val(frac0) + (0 - 9) * pow(
                        10,
                        (f - idx) as nat,
                    ));
                    lemma_pow_adds(10, (f - idx) as nat, 1);
                    lemma_pow1(10);
                    assert(pow(10, ((f - idx) + 1) as nat) == pow(10, (f - idx) as nat) * 10);
                }
                idx = idx - 1;
            } else {
                frac.set(idx - 1, dig + 1);
                proof {
                    lemma_digits_val_update(frac0, (idx - 1) as int, (dig + 1) as u8);
                    assert(digits_val(frac@) == digits_val(frac0) + 1 * pow(
                        10,
                        (f - idx) as nat,
                    ));
                }
                carry = false;
            }
        }
        if carry {
            ip = q + 1;
            proof {
                lemma_pow0(10);
                assert((q as int + 1) * pow(10, f as nat) == q as int * pow(10, f as nat) + pow(
                    10,
                    f as nat,
                )) by {
                    vstd::arithmetic::mul::lemma_mul_is_distributive_add_other_way(
                        pow(10, f as nat),
                        q as int,
                        1,
                    );
                }
            }
        }
    }
    proof {
        vstd::arithmetic::power::lemma_pow_positive(10, f as nat);
        lemma_digits_val_bound(frac@);
        lemma_fundamental_div_mod_converse(
            scaled,
            pow(10, f as nat),
            ip as int,
            digits_val(frac@),
        );
        lemma_fixed_digits_of_val(frac@);
    }
    let mut out = String::new();
    push_number(&mut out, ip);
    if f > 0 {
        out.append(".");
        push_digit_seq(&mut out, &frac);
    }
    out.append(" ");
    out.append(get_prefix(scale, power));
    proof {
        reveal_strlit(".");
        reveal_strlit(" ");
        assert("."@ =~= seq!['.']);
        assert(" "@ =~= seq![' ']);
        assert(out@ =~= spec_rate_string(mean as nat, scale, percision as nat));
    }
    out
}

/// One network device as the sampler reads it: its name and its two byte
/// counters.
pub struct DeviceCounters {
    pub interface: String,
    pub receive_bytes: u64,
    pub transmit_bytes: u64,
}

/// The counter of a device that a direction selects.
pub open spec fn spec_counter(dev: DeviceCounters, dir: Direction) -> u64 {
    match dir {
        Direction::Incoming => dev.receive_bytes,
        Direction::Outgoing => dev.transmit_bytes,
    }
}

/// The selected byte counter of the first device with the given name.
pub open spec fn spec_select_bytes(
    devs: Seq<DeviceCounters>,
    name: Seq<char>,
    dir: Direction,
) -> Option<u64>
    decreases devs.len(),
{
    if devs.len() == 0 {
        None
    } else if devs[0].interface@ == name {
        Some(spec_counter(devs[0], dir))
    } else {
        spec_select_bytes(devs.drop_first(), name, dir)
    }
}

/// Find the first device with the given name and hand out the counter the
/// direction selects.
pub fn select_bytes(devices: &Vec<DeviceCounters>, interface: &String, dir: Direction) -> (r:
    Option<u64>)
    ensures
        r == spec_select_bytes(devices@, interface@, dir),
{
    let mut i: usize = 0;
    proof {
        assert(devices@.skip(0) =~= devices@);
    }
    while i < devices.len()
        invariant
            i <= devices@.len(),
            spec_select_bytes(devices@, interface@, dir) == spec_select_bytes(
                devices@.skip(i as int),
                interface@,
                dir,
            ),
        decreases devices@.len() - i,
    {
        proof {
            assert(devices@.skip(i as int).drop_first() =~= devices@.skip(i as int + 1));
        }
        if devices[i].interface == *interface {
            match dir {
                Direction::Incoming => {
                    return Some(devices[i].receive_bytes);
                },
                Direction::Outgoing => {
                    return Some(devices[i].transmit_bytes);
                },
            }
        }
        i = i + 1;
    }
    proof {
        assert(devices@.skip(devices@.len() as int) =~= Seq::<DeviceCounters>::empty());
    }
    None
}

/// The error type of the OS counter read.
#[verifier::external_type_specification]
#[verifier::external_body]
pub struct ExIoError(std::io::Error);

/// Relies on procinfo::net::dev::dev: reads the per-interface byte counters
/// that the OS network-device accounting reports. Which devices come back,
/// and with which counts, depends on the machine's state at the call, so
/// nothing is promised of the result.
#[verifier::external_body]
fn read_devices() -> (r: Result<Vec<DeviceCounters>, std::io::Error>) {
    match procinfo::net::dev::dev() {
        Ok(devices) => Ok(
            devices.into_iter().map(
                |d| DeviceCounters {
                    interface: d.interface,
                    receive_bytes: d.receive_bytes,
                    transmit_bytes: d.transmit_bytes,
                },
            ).collect(),
        ),
        Err(e) => Err(e),
    }
}

/// What one device-table read means for a counter lookup: a table that was
/// read is searched exactly, and a failed read is an I/O error.
pub fn lookup_outcome(
    read: Result<Vec<DeviceCounters>, std::io::Error>,
    interface: &String,
    dir: Direction,
) -> (r: Result<Option<u64>, ComponentError>)
    ensures
        read matches Ok(devices) ==> r == Ok::<Option<u64>, ComponentError>(
            spec_select_bytes(devices@, interface@, dir),
        ),
        read is Err ==> (r matches Err(e) && e.kind == ErrorKind::Io),
{
    match read {
        Ok(devices) => Ok(select_bytes(&devices, interface, dir)),
        Err(_) => Err(
            ComponentError::new(
                ErrorKind::Io,
                String::from_str("failed to read the network device counters"),
            ),
        ),
    }
}

/// Read the byte counter of the named interface for one direction from the
/// OS: `Ok(None)` when no device of that name exists, an I/O error when the
/// counters cannot be read at all. What each read outcome yields is pinned
/// by `lookup_outcome`.
pub fn get_bytes(interface: &str, dir: Direction) -> (r: Result<Option<u64>, ComponentError>)
    ensures
        r matches Err(e) ==> e.kind == ErrorKind::Io,
{
    let name = interface.to_owned();
    lookup_outcome(read_devices(), &name, dir)
}

/// The sum of the rates a history holds.
pub open spec fn spec_sum(s: Seq<u64>) -> int
    decreases s.len(),
{
    if s.len() == 0 {
        0
    } else {
        spec_sum(s.drop_last()) + s.last()
    }
}

/// Samples one interface's byte counter and renders a smoothed, human-scaled
/// throughput figure.
pub struct NetworkUsage {
    /// Name of the sampled network interface.
    pub interface: String,
    /// Which byte counter is sampled.
    pub direction: Direction,
    /// How the displayed figure is scaled.
    pub scale: Scale,
    /// Significant digits of the displayed coefficient.
    pub percision: u8,
    /// Seconds between the starts of two sampling cycles.
    pub refresh_frequency: u64,
    /// Seconds between the two counter readings of one cycle.
    pub sample_duration: u64,
    /// Recent per-second rates, newest first.
    pub buffer: Vec<u64>,
    /// How many rates the history keeps at most.
    pub buffer_size: usize,
}

impl Default for NetworkUsage {
    fn default() -> (r: NetworkUsage)
        ensures
            r.interface@ == "eth0"@,
            r.direction == Direction::Incoming,
            r.scale == Scale::Binary,
            r.percision == 3,
            r.refresh_frequency == 10,
            r.sample_duration == 1,
            r.buffer@ == Seq::<u64>::empty(),
            r.buffer_size == 5,
    {
        let buffer_size: usize = 5;
        NetworkUsage {
            interface: String::from_str("eth0"),
            direction: Direction::Incoming,
            scale: Scale::Binary,
            percision: 3,
            refresh_frequency: 10,
            sample_duration: 1,
            buffer: Vec::new(),
            buffer_size,
        }
    }
}

impl NetworkUsage {
    /// The running state is well formed: the history never outgrows its
    /// capacity.
    pub open spec fn wf(&self) -> bool {
        self.buffer@.len() <= self.buffer_size
    }

    /// The configuration fields agree; only the history may differ.
    pub open spec fn same_config(&self, other: &NetworkUsage) -> bool {
        &&& self.interface == other.interface
        &&& self.direction == other.direction
        &&& self.scale == other.scale
        &&& self.percision == other.percision
        &&& self.refresh_frequency == other.refresh_frequency
        &&& self.sample_duration == other.sample_duration
        &&& self.buffer_size == other.buffer_size
    }

    /// The history after a rate is recorded: the rate goes to the front, and
    /// entries past the capacity are evicted from the back.
    pub open spec fn spec_recorded(&self, rate: u64) -> Seq<u64> {
        let full = seq![rate] + self.buffer@;
        if full.len() <= self.buffer_size {
            full
        } else {
            full.take(self.buffer_size as int)
        }
    }

    /// Push the newest per-second rate at the front of the history, evicting
    /// the oldest entries past the capacity.
    fn record_rate(&mut self, rate: u64)
        ensures
            final(self).buffer@ == old(self).spec_recorded(rate),
            final(self).same_config(old(self)),
            final(self).wf(),
    {
        let ghost full = seq![rate] + old(self).buffer@;
        self.buffer.insert(0, rate);
        proof {
            assert(self.buffer@ =~= full);
            assert(full.take(full.len() as int) =~= full);
        }
        while self.buffer.len() > self.buffer_size
            invariant
                self.buffer@.len() <= full.len(),
                self.buffer@ == full.take(self.buffer@.len() as int),
                self.buffer@.len() >= if full.len() <= self.buffer_size as int {
                    full.len() as int
                } else {
                    self.buffer_size as int
                },
                self.same_config(old(self)),
                full == seq![rate] + old(self).buffer@,
            decreases self.buffer@.len(),
        {
            self.buffer.pop();
            proof {
                assert(self.buffer@ =~= full.take(self.buffer@.len() as int));
            }
        }
    }

    /// The integer mean of the recorded rates.
    pub fn buffer_mean(&self) -> (r: u64)
        requires
            self.buffer@.len() >= 1,
        ensures
            r == spec_sum(self.buffer@) / self.buffer@.len() as int,
    {
        let mut total: u128 = 0;
        let mut i: usize = 0;
        while i < self.buffer.len()
            invariant
                i <= self.buffer@.len(),
                total == spec_sum(self.buffer@.take(i as int)),
                total <= i as int * (u64::MAX as int),
            decreases self.buffer@.len() - i,
        {
            proof {
                assert(self.buffer@.take(i as int + 1).drop_last() =~= self.buffer@.take(
                    i as int,
                ));
            }
            total = total + (self.buffer[i] as u128);
            i = i + 1;
        }
        proof {
            assert(self.buffer@.take(self.buffer@.len() as int) =~= self.buffer@);
        }
        let len: u64 = self.buffer.len() as u64;
        let r: u128 = total / (len as u128);
        proof {
            lemma_div_is_ordered(
                total as int,
                u64::MAX as int * len as int,
                len as int,
            );
            vstd::arithmetic::div_mod::lemma_div_by_multiple(u64::MAX as int, len as int);
        }
        r as u64
    }

    /// One sampling cycle, given the two counter readings of the cycle: the
    /// per-second rate is recorded in the history and the smoothed, scaled
    /// figure is rendered. A cycle whose counter went backwards (a reset or
    /// wrap) is skipped and leaves the state unchanged.
    pub fn cycle_text(&mut self, first: u64, second: u64) -> (r: Option<String>)
        requires
            old(self).percision >= 1,
            old(self).buffer_size >= 1,
            old(self).sample_duration >= 1,
        ensures
            second < first ==> r is None && *final(self) == *old(self),
            second >= first ==> ({
                let rate = ((second - first) as int / old(self).sample_duration as int) as u64;
                &&& final(self).buffer@ == old(self).spec_recorded(rate)
                &&& final(self).same_config(old(self))
                &&& r matches Some(text) && text@ == spec_rate_string(
                    (spec_sum(final(self).buffer@) / final(self).buffer@.len() as int) as nat,
                    old(self).scale,
                    old(self).percision as nat,
                )
            }),
            second >= first ==> final(self).wf(),
            old(self).wf() ==> final(self).wf(),
    {
        if second < first {
            return None;
        }
        let rate = (second - first) / self.sample_duration;
        self.record_rate(rate);
        let mean = self.buffer_mean();
        Some(format_rate(mean, self.scale, self.percision))
    }

    /// The initialization decision on a device table: succeed exactly when
    /// the table holds a device with the configured name.
    pub fn confirm_interface(&self, devices: &Vec<DeviceCounters>) -> (r: Result<
        (),
        ComponentError,
    >)
        ensures
            r is Ok <==> spec_select_bytes(devices@, self.interface@, self.direction) is Some,
            r matches Err(e) ==> (e.kind == ErrorKind::Configuration && e.context@.len() == 1
                && e.context@[0]@ == "No such network interface"@),
    {
        match select_bytes(devices, &self.interface, self.direction) {
            Some(_) => Ok(()),
            None => Err(
                ComponentError::new(
                    ErrorKind::Configuration,
                    String::from_str("No such network interface"),
                ),
            ),
        }
    }

    /// Look the configured interface up among the OS-reported devices:
    /// success exactly when a device of that name exists (the decision is
    /// `confirm_interface`'s contract), a configuration error when none
    /// does, an I/O error when the devices cannot be read.
    pub fn check_interface(&self) -> (r: Result<(), ComponentError>)
        ensures
            r matches Err(e) ==> e.kind == ErrorKind::Configuration || e.kind == ErrorKind::Io,
    {
        match read_devices() {
            Ok(devices) => self.confirm_interface(&devices),
            Err(_) => Err(
                ComponentError::new(
                    ErrorKind::Io,
                    String::from_str("failed to read the network device counters"),
                ),
            ),
        }
    }

    /// One counter reading of a cycle: the configured interface's counter
    /// for the configured direction. Each lookup outcome yields what
    /// `counter_outcome` pins: a vanished interface or a failed read
    /// surfaces as a typed per-cycle error, never a panic.
    pub fn read_counter(&self) -> (r: Result<u64, ComponentError>)
        ensures
            r matches Err(e) ==> e.kind == ErrorKind::Configuration || e.kind == ErrorKind::Io,
    {
        counter_outcome(get_bytes(self.interface.as_str(), self.direction))
    }
}

/// What one counter lookup means for a cycle: a present counter is the
/// reading, a vanished interface is a per-cycle configuration error, and a
/// failed lookup passes through unchanged.
pub fn counter_outcome(looked_up: Result<Option<u64>, ComponentError>) -> (r: Result<
    u64,
    ComponentError,
>)
    ensures
        looked_up matches Ok(Some(bytes)) ==> r == Ok::<u64, ComponentError>(bytes),
        looked_up matches Ok(None) ==> (r matches Err(e) && e.kind == ErrorKind::Configuration
            && e.context@.len() == 1 && e.context@[0]@ == "No such network interface"@),
        looked_up matches Err(e) ==> r == Err::<u64, ComponentError>(e),
{
    match looked_up {
        Ok(Some(bytes)) => Ok(bytes),
        Ok(None) => Err(
            ComponentError::new(
                ErrorKind::Configuration,
                String::from_str("No such network interface"),
            ),
        ),
        Err(e) => Err(e),
    }
}

impl Component for NetworkUsage {
    type Stream = NetworkUsage;

    open spec fn stream_spec(self) -> NetworkUsage {
        self
    }

    /// Look the configured interface up; fail fast when it does not exist,
    /// before any stream state is built. The decision on the read devices
    /// is `confirm_interface`'s contract.
    fn init(&mut self) -> (r: Result<(), ComponentError>)
        ensures
            r matches Err(e) ==> e.kind == ErrorKind::Configuration || e.kind == ErrorKind::Io,
    {
        self.check_interface()
    }

    /// The sampler's running state is its own configuration and history;
    /// no counter is read until a driver acts on it.
    fn stream(self) -> (r: NetworkUsage) {
        self
    }
}

} // verus!
