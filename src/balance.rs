//! Fixed-point monetary values with four fractional digits.
use crate::error::PaymentError;
use vstd::prelude::*;

verus! {

/// Number of units in one whole currency unit: balances carry four
/// fractional digits.
pub const UNITS_PER_WHOLE: i128 = 10000;

/// A signed monetary value, counted in ten-thousandths of a currency unit.
#[derive(Debug, Clone, Copy, PartialEq, Eq, Structural)]
pub struct Balance(pub i128);

impl Balance {
    /// A balance of `units` ten-thousandths.
    pub fn new(units: i128) -> (r: Balance)
        ensures
            r.0 == units,
    {
        Balance(units)
    }

    /// The number of ten-thousandths this balance holds.
    pub fn units(&self) -> (r: i128)
        ensures
            r == self.0,
    {
        self.0
    }

    /// The sum of two balances, or `None` when it does not fit.
    pub fn checked_add(self, rhs: Balance) -> (r: Option<Balance>)
        ensures
            r == (if i128::MIN <= self.0 + rhs.0 <= i128::MAX {
                Some(Balance((self.0 + rhs.0) as i128))
            } else {
                None::<Balance>
            }),
    {
        match self.0.checked_add(rhs.0) {
            Some(v) => Some(Balance(v)),
            None => None,
        }
    }

    /// The difference of two balances, or `None` when it does not fit.
    pub fn checked_sub(self, rhs: Balance) -> (r: Option<Balance>)
        ensures
            r == (if i128::MIN <= self.0 - rhs.0 <= i128::MAX {
                Some(Balance((self.0 - rhs.0) as i128))
            } else {
                None::<Balance>
            }),
    {
        match self.0.checked_sub(rhs.0) {
            Some(v) => Some(Balance(v)),
            None => None,
        }
    }
}

/// 10 to the power `n`.
pub open spec fn pow10(n: nat) -> nat
    decreases n,
{
    if n == 0 {
        1
    } else {
        10 * pow10((n - 1) as nat)
    }
}

/// The absolute value of `m`.
pub open spec fn magnitude(m: int) -> nat {
    if m < 0 {
        (-m) as nat
    } else {
        m as nat
    }
}

/// `v` without its last `k` decimal digits, or `None` when one of them is
/// not zero.
pub open spec fn drop_zero_digits(v: nat, k: nat) -> Option<nat>
    decreases k,
{
    if k == 0 {
        Some(v)
    } else if v % 10 != 0 {
        None
    } else {
        drop_zero_digits(v / 10, (k - 1) as nat)
    }
}

/// The number of ten-thousandths in |m| / 10^e, when that is whole.
pub open spec fn scaled_magnitude(m: int, e: nat) -> Option<nat> {
    if e <= 4 {
        Some(magnitude(m) * pow10((4 - e) as nat))
    } else {
        drop_zero_digits(magnitude(m), (e - 4) as nat)
    }
}

/// The balance m / 10^e, when it has at most four fractional digits and
/// fits.
pub open spec fn balance_of_parts(m: int, e: nat) -> Option<Balance> {
    match scaled_magnitude(m, e) {
        Some(u) => {
            let units = if m < 0 {
                -u
            } else {
                u as int
            };
            if i128::MIN <= units <= i128::MAX {
                Some(Balance(units as i128))
            } else {
                None
            }
        },
        None => None,
    }
}

/// The number that decimal text stands for, as rust_decimal reads it: a
/// mantissa and a scale, the value being mantissa / 10^scale; `None` when
/// the text is not a number.
pub uninterp spec fn decimal_parts_of(text: Seq<char>) -> Option<(i128, u32)>;

/// Relies on rust_decimal's `Decimal::from_str` to read decimal text, and on
/// `Decimal::mantissa` and `Decimal::scale` to take the number it read apart.
#[verifier::external_body]
fn parse_decimal(text: &str) -> (r: Option<(i128, u32)>)
    ensures
        r == decimal_parts_of(text@),
{
    match <rust_decimal::Decimal as std::str::FromStr>::from_str(text) {
        Ok(d) => Some((d.mantissa(), d.scale())),
        Err(_) => None,
    }
}

impl Balance {
    /// The balance `mantissa / 10^scale`; `None` when that has more than
    /// four fractional digits or does not fit.
    pub fn from_parts(mantissa: i128, scale: u32) -> (r: Option<Balance>)
        ensures
            r == balance_of_parts(mantissa as int, scale as nat),
    {
        let negative = mantissa < 0;
        let mag: u128 = if negative {
            ((-(mantissa + 1)) as u128) + 1
        } else {
            mantissa as u128
        };
        let scaled: u128 = if scale <= 4 {
            let factor: u128 = if scale == 0 {
                10000
            } else if scale == 1 {
                1000
            } else if scale == 2 {
                100
            } else if scale == 3 {
                10
            } else {
                1
            };
            proof {
                reveal_with_fuel(pow10, 5);
            }
            proof {
                assert(factor == pow10((4 - scale) as nat));
            }
            match mag.checked_mul(factor) {
                Some(v) => v,
                None => {
                    proof {
                        assert(mag == magnitude(mantissa as int));
                        assert(scaled_magnitude(mantissa as int, scale as nat) == Some(
                            (mag * factor) as nat,
                        ));
                    }
                    return None;
                },
            }
        } else {
            let k = scale - 4;
            let mut v = mag;
            let mut i: u32 = 0;
            while i < k && v != 0
                invariant
                    i <= k,
                    scale > 4,
                    k == scale - 4,
                    mag == magnitude(mantissa as int),
                    drop_zero_digits(mag as nat, k as nat) == drop_zero_digits(v as nat, (k - i) as nat),
                decreases k - i,
            {
                if v % 10 != 0 {
                    proof {
                        assert(drop_zero_digits(v as nat, (k - i) as nat) == None::<nat>);
                    }
                    return None;
                }
                v = v / 10;
                i = i + 1;
            }
            proof {
                if i < k {
                    lemma_zero_keeps_digits((k - i) as nat);
                }
                assert(drop_zero_digits(v as nat, (k - i) as nat) == Some(v as nat));
            }
            v
        };
        proof {
            assert(mag == magnitude(mantissa as int));
            assert(scaled_magnitude(mantissa as int, scale as nat) == Some(scaled as nat));
        }
        if negative {
            if scaled > 0x8000_0000_0000_0000_0000_0000_0000_0000u128 {
                None
            } else if scaled == 0x8000_0000_0000_0000_0000_0000_0000_0000u128 {
                Some(Balance(i128::MIN))
            } else {
                Some(Balance(-(scaled as i128)))
            }
        } else if scaled > 0x7fff_ffff_ffff_ffff_ffff_ffff_ffff_ffffu128 {
            None
        } else {
            Some(Balance(scaled as i128))
        }
    }

    /// The balance that decimal text stands for, when it has at most four
    /// fractional digits and fits.
    pub fn parse(text: &str) -> (r: Option<Balance>)
        ensures
            r == (match decimal_parts_of(text@) {
                Some(p) => balance_of_parts(p.0 as int, p.1 as nat),
                None => None,
            }),
    {
        match parse_decimal(text) {
            Some((m, e)) => Balance::from_parts(m, e),
            None => None,
        }
    }
}

/// Zero has any number of zero digits to drop.
proof fn lemma_zero_keeps_digits(k: nat)
    ensures
        drop_zero_digits(0, k) == Some(0nat),
    decreases k,
{
    if k > 0 {
        lemma_zero_keeps_digits((k - 1) as nat);
    }
}

/// A strictly positive monetary value: the amount of a deposit or withdrawal.
#[derive(Debug, Clone, Copy, PartialEq, Eq)]
pub struct Amount(i128);

impl Amount {
    #[verifier::type_invariant]
    spec fn is_positive(self) -> bool {
        self.0 > 0
    }

    /// The amount's value, in ten-thousandths.
    pub closed spec fn spec_units(self) -> int {
        self.0 as int
    }

    /// An amount's value fits in the units of a balance.
    pub proof fn lemma_units_in_range(a: Amount)
        ensures
            i128::MIN <= a.spec_units() <= i128::MAX,
    {
    }

    /// Two amounts of the same value are the same amount.
    pub proof fn lemma_units_determine(a: Amount, b: Amount)
        ensures
            a.spec_units() == b.spec_units() ==> a == b,
    {
    }

    /// An amount of the given value; fails with a validation error unless
    /// the value is strictly positive.
    pub fn new(value: Balance) -> (r: Result<Amount, PaymentError>)
        ensures
            value.0 > 0 ==> (r matches Ok(a) && a.spec_units() == value.0),
            value.0 <= 0 ==> (r matches Err(PaymentError::ValidationError(_))),
    {
        if value.0 > 0 {
            Ok(Amount(value.0))
        } else {
            Err(PaymentError::ValidationError("Amount must be positive".to_string()))
        }
    }

    /// The amount as a balance.
    pub fn value(&self) -> (r: Balance)
        ensures
            r.0 == self.spec_units(),
            r.0 > 0,
    {
        proof {
            use_type_invariant(self);
        }
        Balance(self.0)
    }
}

} // verus!
