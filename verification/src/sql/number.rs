use crate::err::{Error, EvaluationError};
use crate::sql::value::{Number, NUMBER_SCALE};
use vstd::prelude::*;

verus! {

/// Whether a count of millionths is a representable number.
pub open spec fn fits(x: int) -> bool {
    i64::MIN <= x <= i64::MAX
}

/// The quotient of `x` by `d`, rounded toward zero. `d` is not zero.
pub open spec fn quotient(x: int, d: int) -> int {
    if x == 0 {
        0
    } else if x > 0 && d > 0 {
        x / d
    } else if x < 0 && d < 0 {
        (-x) / (-d)
    } else if x < 0 {
        -((-x) / d)
    } else {
        -(x / (-d))
    }
}

/// The product of two counts of millionths, as a count of millionths.
pub open spec fn product(a: int, b: int) -> int {
    quotient(a * b, NUMBER_SCALE as int)
}

/// The ratio of two counts of millionths, as a count of millionths.
pub open spec fn ratio(a: int, b: int) -> int {
    quotient(a * NUMBER_SCALE, b)
}

/// The number `x`, or the overflow error where it cannot be represented.
pub open spec fn number_or_overflow(x: int) -> Result<int, Error> {
    if fits(x) {
        Ok(x)
    } else {
        Err(Error::Evaluation(EvaluationError::Overflow))
    }
}

/// The bounds of a product of two 64-bit integers.
proof fn lemma_product_bounds(a: int, b: int)
    requires
        fits(a),
        fits(b),
    ensures
        -0x4000_0000_0000_0000_0000_0000_0000_0000 <= a * b
            <= 0x4000_0000_0000_0000_0000_0000_0000_0000,
{
    assert(-0x4000_0000_0000_0000_0000_0000_0000_0000 <= a * b
        <= 0x4000_0000_0000_0000_0000_0000_0000_0000) by (nonlinear_arith)
        requires
            -0x8000_0000_0000_0000 <= a <= 0x7fff_ffff_ffff_ffff,
            -0x8000_0000_0000_0000 <= b <= 0x7fff_ffff_ffff_ffff,
    ;
}

/// The 64-bit integer with the value of `x`, or the overflow error.
fn narrow(x: i128) -> (r: Result<Number, Error>)
    ensures
        match r {
            Ok(n) => number_or_overflow(x as int) == Ok::<int, Error>(n.0 as int),
            Err(e) => number_or_overflow(x as int) == Err::<int, Error>(e),
        },
{
    if x < i64::MIN as i128 || x > i64::MAX as i128 {
        Err(Error::Evaluation(EvaluationError::Overflow))
    } else {
        Ok(Number(x as i64))
    }
}

impl Number {
    /// The whole number `n`, where it can be represented.
    pub fn whole(n: i64) -> (r: Option<Number>)
        ensures
            r == if fits(n * NUMBER_SCALE) {
                Some(Number((n * NUMBER_SCALE) as i64))
            } else {
                None
            },
    {
        match n.checked_mul(NUMBER_SCALE) {
            Some(m) => Some(Number(m)),
            None => None,
        }
    }

    /// The sum, or the overflow error.
    pub fn plus(self, other: Number) -> (r: Result<Number, Error>)
        ensures
            match r {
                Ok(n) => number_or_overflow(self.0 + other.0) == Ok::<int, Error>(n.0 as int),
                Err(e) => number_or_overflow(self.0 + other.0) == Err::<int, Error>(e),
            },
    {
        narrow(self.0 as i128 + other.0 as i128)
    }

    /// The difference, or the overflow error.
    pub fn minus(self, other: Number) -> (r: Result<Number, Error>)
        ensures
            match r {
                Ok(n) => number_or_overflow(self.0 - other.0) == Ok::<int, Error>(n.0 as int),
                Err(e) => number_or_overflow(self.0 - other.0) == Err::<int, Error>(e),
            },
    {
        narrow(self.0 as i128 - other.0 as i128)
    }

    /// The product, rounded toward zero to a millionth, or the overflow error.
    pub fn times(self, other: Number) -> (r: Result<Number, Error>)
        ensures
            match r {
                Ok(n) => number_or_overflow(product(self.0 as int, other.0 as int)) == Ok::<
                    int,
                    Error,
                >(n.0 as int),
                Err(e) => number_or_overflow(product(self.0 as int, other.0 as int)) == Err::<
                    int,
                    Error,
                >(e),
            },
    {
        proof {
            lemma_product_bounds(self.0 as int, other.0 as int);
        }
        let wide: i128 = (self.0 as i128) * (other.0 as i128);
        let scale: i128 = 1_000_000;
        assert(scale == NUMBER_SCALE);
        match wide.checked_div(scale) {
            Some(q) => {
                assert(q == quotient(wide as int, scale as int));
                narrow(q)
            },
            None => {
                assert(!fits(quotient(wide as int, scale as int)));
                Err(Error::Evaluation(EvaluationError::Overflow))
            },
        }
    }

    /// The ratio, rounded toward zero to a millionth; an error where `other`
    /// is zero or the ratio cannot be represented.
    pub fn over(self, other: Number) -> (r: Result<Number, Error>)
        ensures
            other.0 == 0 ==> r == Err::<Number, Error>(
                Error::Evaluation(EvaluationError::DivisionByZero),
            ),
            other.0 != 0 ==> match r {
                Ok(n) => number_or_overflow(ratio(self.0 as int, other.0 as int)) == Ok::<
                    int,
                    Error,
                >(n.0 as int),
                Err(e) => number_or_overflow(ratio(self.0 as int, other.0 as int)) == Err::<
                    int,
                    Error,
                >(e),
            },
    {
        if other.0 == 0 {
            return Err(Error::Evaluation(EvaluationError::DivisionByZero));
        }
        let scale: i128 = 1_000_000;
        assert(scale == NUMBER_SCALE);
        let wide: i128 = (self.0 as i128) * scale;
        match wide.checked_div(other.0 as i128) {
            Some(q) => {
                assert(q == quotient(wide as int, other.0 as int));
                narrow(q)
            },
            None => {
                assert(!fits(quotient(wide as int, other.0 as int)));
                Err(Error::Evaluation(EvaluationError::Overflow))
            },
        }
    }
}

} // verus!
