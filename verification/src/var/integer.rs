use vstd::prelude::*;
use num_bigint::{BigInt, Sign};
use crate::var::Var;
use crate::vm::runtime::Vm;
use crate::var::ctor::{ctor_of, ctor_outcome, Make};

verus! {

/// The sign type of `num_bigint`.
#[verifier::external_type_specification]
#[verifier::external_body]
pub struct ExSign(Sign);

/// Sign of an integer object.
#[derive(Clone, Copy, PartialEq, Eq, Structural, Debug)]
pub enum IntSign {
    Minus,
    NoSign,
    Plus,
}

/// An integer object of any size: a sign and base 2^32 digits, least significant first.
pub struct Int {
    pub sign: IntSign,
    pub digits: Vec<u32>,
}

/// The number base 2^32 digits `d` stand for, least significant first.
pub open spec fn magnitude(d: Seq<u32>) -> int
    decreases d.len(),
{
    if d.len() == 0 { 0 } else { d[0] + 0x1_0000_0000 * magnitude(d.drop_first()) }
}

/// The number an integer object stands for.
pub open spec fn int_value(sign: IntSign, d: Seq<u32>) -> int {
    match sign {
        IntSign::Minus => -magnitude(d),
        IntSign::NoSign => 0,
        IntSign::Plus => magnitude(d),
    }
}

impl Int {
    pub open spec fn value(&self) -> int {
        int_value(self.sign, self.digits@)
    }

    /// The integer zero.
    pub fn zero() -> (res: Self)
        ensures
            res.value() == 0,
            res.sign == IntSign::NoSign,
            res.digits@.len() == 0,
    {
        Int { sign: IntSign::NoSign, digits: Vec::new() }
    }
}

/// The sum of two integers, computed by `num_bigint`: each is turned into a `BigInt` with
/// `BigInt::from_slice`, they are added with `+`, and the sum is turned back with
/// `to_u32_digits`. The crate documents both conversions as sign and base 2^32 digits,
/// least significant first, and `+` as the sum.
#[verifier::external_body]
pub(crate) fn big_add(a: &Int, b: &Int) -> (res: Int)
    ensures
        res.value() == a.value() + b.value(),
{
    let x = BigInt::from_slice(to_sign(a.sign), &a.digits);
    let y = BigInt::from_slice(to_sign(b.sign), &b.digits);
    let (s, digits) = (x + y).to_u32_digits();
    let sign = match s {
        Sign::Minus => IntSign::Minus,
        Sign::NoSign => IntSign::NoSign,
        Sign::Plus => IntSign::Plus,
    };
    Int { sign, digits }
}

/// The `num_bigint` sign for a sign of an integer object, variant for variant.
#[verifier::external_body]
fn to_sign(s: IntSign) -> Sign {
    match s {
        IntSign::Minus => Sign::Minus,
        IntSign::NoSign => Sign::NoSign,
        IntSign::Plus => Sign::Plus,
    }
}


/// The integer type's constructor object, the same on every call while the runtime keeps it;
/// calling it makes a new integer zero.
pub fn ctor(vm: &mut Vm) -> (res: Var)
    ensures
        ctor_outcome(*old(vm), *final(vm), Make::Int, res),
        old(vm).wf() ==> final(vm).wf(),
{
    ctor_of(vm, Make::Int)
}

} // verus!
