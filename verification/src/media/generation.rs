//! Exact numbers for encoding synthetic clips: greatest common divisors for
//! track timescales, whole-millisecond durations, and decimal second counts
//! an encoder reads back exactly.
use crate::rational::{checked_mul, checked_umul, coprime, frac_eq, integer, product_of, uproduct_of, Rational, URational};
use crate::text::{chars_of, digits_in, format_unsigned, padded, string_of};
use vstd::prelude::*;

verus! {

// === Greatest common divisor ===============================================

/// Euclid's greatest common divisor.
pub open spec fn gcd_spec(a: nat, b: nat) -> nat
    decreases b,
{
    if b == 0 {
        a
    } else {
        gcd_spec(b, a % b)
    }
}

pub open spec fn times(a: int, b: int) -> int {
    a * b
}

/// `d` divides `n`.
pub open spec fn divides(d: int, n: int) -> bool {
    exists|k: int| n == #[trigger] times(d, k)
}

/// The greatest common divisor of `a` and `b`.
pub fn gcd(a: u64, b: u64) -> (r: u64)
    ensures
        r == gcd_spec(a as nat, b as nat),
{
    let mut x = a;
    let mut y = b;
    while y != 0
        invariant
            gcd_spec(x as nat, y as nat) == gcd_spec(a as nat, b as nat),
        decreases y,
    {
        let t = x % y;
        x = y;
        y = t;
    }
    x
}

/// Euclid's algorithm finds a common divisor of both numbers that every
/// common divisor divides: the greatest one.
pub proof fn lemma_gcd(a: nat, b: nat, d: int)
    ensures
        divides(gcd_spec(a, b) as int, a as int),
        divides(gcd_spec(a, b) as int, b as int),
        divides(d, a as int) && divides(d, b as int) ==> divides(d, gcd_spec(a, b) as int),
    decreases b,
{
    if b == 0 {
        assert(a as int == times(a as int, 1));
        assert(0 == times(a as int, 0));
    } else {
        let r = a % b;
        let q = a / b;
        lemma_gcd(b, r, d);
        let g = gcd_spec(b, r) as int;
        vstd::arithmetic::div_mod::lemma_fundamental_div_mod(a as int, b as int);
        assert(a as int == b * q + r);
        let k1 = choose|k: int| b == #[trigger] times(g, k);
        let k2 = choose|k: int| r == #[trigger] times(g, k);
        assert(a as int == g * (k1 * q + k2)) by (nonlinear_arith)
            requires
                a as int == b * q + r,
                b == g * k1,
                r == g * k2,
        ;
        assert(a as int == times(g, k1 * q + k2));
        if divides(d, a as int) && divides(d, b as int) {
            let m1 = choose|k: int| a as int == #[trigger] times(d, k);
            let m2 = choose|k: int| b as int == #[trigger] times(d, k);
            assert(r == d * (m1 - m2 * q)) by (nonlinear_arith)
                requires
                    a as int == b * q + r,
                    a as int == d * m1,
                    b as int == d * m2,
            ;
            assert(r == times(d, m1 - m2 * q));
        }
    }
}

/// A track timescale in which one frame at `numer / denom` frames per second
/// and any whole millisecond are both a whole number of ticks:
/// `1000 / gcd(1000, numer) * numer`.
pub fn mp4_timescale(numer: u64) -> (r: Option<u64>)
    ensures
        numer > 0 ==> (r matches Some(t) ==> t == (1000nat / gcd_spec(1000, numer as nat)) * numer),
        numer > 0 ==> (r is None <==> (1000nat / gcd_spec(1000, numer as nat)) * numer > u64::MAX),
        numer == 0 ==> r is None,
{
    if numer == 0 {
        return None;
    }
    let g = gcd(1000, numer);
    proof {
        lemma_gcd(1000, numer as nat, 0);
        lemma_gcd_positive(1000, numer as nat);
    }
    let scale = 1000 / g;
    scale.checked_mul(numer)
}

proof fn lemma_gcd_positive(a: nat, b: nat)
    requires
        a > 0,
    ensures
        gcd_spec(a, b) > 0,
    decreases b,
{
    if b > 0 {
        lemma_gcd_positive_rev(b, a % b);
    }
}

proof fn lemma_gcd_positive_rev(a: nat, b: nat)
    requires
        a > 0,
    ensures
        gcd_spec(a, b) > 0,
    decreases b,
{
    if b > 0 {
        lemma_gcd_positive_rev(b, a % b);
    }
}

// === Exact durations and times =============================================

/// Why a duration or time cannot be written as the encoder needs it.
#[derive(Debug, Clone, Copy, PartialEq, Eq, Structural)]
pub enum GenerationError {
    /// The duration is not a whole number of milliseconds.
    NotWholeMillisecond,
    /// The time is not a whole number of microseconds.
    NotWholeMicrosecond,
    /// Exact arithmetic overflowed.
    Overflow,
}

proof fn lemma_canonical_integer(n: int, d: int, m: int)
    requires
        d > 0,
        coprime(n, d),
        n * 1 == m * d,
    ensures
        d == 1,
{
    if d > 1 {
        assert(n % d == 0) by (nonlinear_arith)
            requires
                n * 1 == m * d,
                d > 1,
        ;
        assert(d % d == 0) by (nonlinear_arith)
            requires
                d > 1,
        ;
        assert(!(n % d == 0 && d % d == 0));
    }
}

/// Why `d` has no count of whole milliseconds: `num_rational` overflows
/// multiplying it by 1000, or it is not a whole number of milliseconds.
pub open spec fn millis_error(d: URational) -> Option<GenerationError> {
    if uproduct_of(d, URational { numer: 1000, denom: 1 }) is None {
        Some(GenerationError::Overflow)
    } else if (d.numer * 1000) % (d.denom as int) != 0 {
        Some(GenerationError::NotWholeMillisecond)
    } else {
        None
    }
}

/// A whole-millisecond duration as a count of milliseconds.
pub fn duration_millis(duration: URational) -> (r: Result<u64, GenerationError>)
    requires
        duration.wf(),
    ensures
        match millis_error(duration) {
            Some(e) => r == Err::<u64, GenerationError>(e),
            None => r matches Ok(ms) && ms == (duration.numer * 1000) / (duration.denom as int),
        },
        r matches Ok(ms) ==> ms * duration.denom == duration.numer * 1000,
        r == Err::<u64, GenerationError>(GenerationError::NotWholeMillisecond) ==> (duration.numer * 1000)
            % (duration.denom as int) != 0,
        r matches Err(e) ==> e == GenerationError::NotWholeMillisecond || e == GenerationError::Overflow,
        r == Err::<u64, GenerationError>(GenerationError::Overflow) <==> uproduct_of(
            duration,
            URational { numer: 1000, denom: 1 },
        ) is None,
{
    let ms = match checked_umul(duration, URational::from_integer(1000)) {
        Some(m) => m,
        None => return Err(GenerationError::Overflow),
    };
    if ms.denom != 1 {
        proof {
            if (duration.numer * 1000) % (duration.denom as int) == 0 {
                let m = (duration.numer * 1000) / (duration.denom as int);
                vstd::arithmetic::div_mod::lemma_fundamental_div_mod(
                    duration.numer * 1000,
                    duration.denom as int,
                );
                assert(ms.numer * (duration.denom * 1) == (duration.numer * 1000) * ms.denom);
                assert(ms.numer * 1 == m * ms.denom) by (nonlinear_arith)
                    requires
                        ms.numer * (duration.denom * 1) == (duration.numer * 1000) * ms.denom,
                        duration.numer * 1000 == duration.denom * m,
                        duration.denom > 0,
                ;
                lemma_canonical_integer(ms.numer as int, ms.denom as int, m);
            }
        }
        return Err(GenerationError::NotWholeMillisecond);
    }
    proof {
        assert(ms.numer * (duration.denom * 1) == (duration.numer * 1000) * 1);
        assert(ms.numer == (duration.numer * 1000) / (duration.denom as int)
            && (duration.numer * 1000) % (duration.denom as int) == 0) by (nonlinear_arith)
            requires
                ms.numer * duration.denom == duration.numer * 1000,
                duration.denom > 0,
        {
            vstd::arithmetic::div_mod::lemma_div_by_multiple(ms.numer as int, duration.denom as int);
            vstd::arithmetic::div_mod::lemma_mod_multiples_basic(ms.numer as int, duration.denom as int);
        }
    }
    Ok(ms.numer)
}

/// A whole microsecond count written as decimal seconds: a minus sign when
/// it is negative, the whole seconds, a point, and the microseconds in six
/// digits, so that `-7/10` s reads `-0.700000`.
pub open spec fn seconds_text(micros: int) -> Seq<char> {
    let a = if micros < 0 {
        -micros
    } else {
        micros
    };
    let sign = if micros < 0 {
        seq!['-']
    } else {
        Seq::<char>::empty()
    };
    sign + digits_in((a / 1_000_000) as nat, 10) + seq!['.'] + padded(
        digits_in((a % 1_000_000) as nat, 10),
        6,
        '0',
    )
}

/// An exact time in whole microseconds, written as decimal seconds an
/// encoder parses back exactly.
pub fn format_seconds_signed(t: Rational) -> (r: Result<String, GenerationError>)
    requires
        t.wf(),
    ensures
        r matches Ok(s) ==> exists|micros: int|
            #[trigger] frac_eq(t.frac(), (micros, 1_000_000)) && s@ == seconds_text(micros),
        r == Err::<String, GenerationError>(GenerationError::NotWholeMicrosecond) <==> (product_of(
            t,
            integer(1_000_000),
        ) is Some && (t.numer * 1_000_000) % (t.denom as int) != 0),
        r matches Err(e) ==> e == GenerationError::NotWholeMicrosecond || e == GenerationError::Overflow,
        r == Err::<String, GenerationError>(GenerationError::Overflow) <==> product_of(t, integer(1_000_000))
            is None,
{
    let micros = match checked_mul(t, Rational::from_integer(1_000_000)) {
        Some(m) => m,
        None => return Err(GenerationError::Overflow),
    };
    if micros.denom != 1 {
        proof {
            if (t.numer * 1_000_000) % (t.denom as int) == 0 {
                let m = (t.numer * 1_000_000) / (t.denom as int);
                vstd::arithmetic::div_mod::lemma_fundamental_div_mod(t.numer * 1_000_000, t.denom as int);
                assert(micros.numer * (t.denom * 1) == (t.numer * 1_000_000) * micros.denom);
                assert(micros.numer * 1 == m * micros.denom) by (nonlinear_arith)
                    requires
                        micros.numer * (t.denom * 1) == (t.numer * 1_000_000) * micros.denom,
                        t.numer * 1_000_000 == t.denom * m,
                        t.denom > 0,
                ;
                lemma_canonical_integer(micros.numer as int, micros.denom as int, m);
            }
        }
        return Err(GenerationError::NotWholeMicrosecond);
    }
    let m = micros.numer as i128;
    let a: u64 = if m < 0 {
        (-m) as u64
    } else {
        m as u64
    };
    let mut c: Vec<char> = Vec::new();
    if m < 0 {
        c.push('-');
    }
    let whole = format_unsigned(a / 1_000_000, 10, 0);
    let mut w = chars_of(whole.as_str());
    c.append(&mut w);
    c.push('.');
    let frac = format_unsigned(a % 1_000_000, 10, 6);
    let mut f = chars_of(frac.as_str());
    c.append(&mut f);
    proof {
        assert(micros.numer * (t.denom * 1) == (t.numer * 1_000_000) * 1);
        assert(frac_eq(t.frac(), (micros.numer as int, 1_000_000)));
        assert((t.numer * 1_000_000) % (t.denom as int) == 0) by {
            assert(t.numer * 1_000_000 == micros.numer * t.denom);
            vstd::arithmetic::div_mod::lemma_mod_multiples_basic(micros.numer as int, t.denom as int);
        }
        assert(digits_in((a / 1_000_000) as nat, 10) == padded(digits_in((a / 1_000_000) as nat, 10), 0, '0'));
        assert(c@ =~= seconds_text(micros.numer as int));
    }
    Ok(string_of(c.as_slice()))
}

} // verus!
