//! Double-precision numbers, carried by their IEEE 754 encoding. Their order and
//! their classification are computed here; arithmetic on them is not.

use vstd::prelude::*;

use crate::json::{Json, JsonValue};

verus! {

/// A double-precision number.
#[derive(Debug, PartialEq)]
pub struct Double {
    /// Its IEEE 754 binary64 encoding.
    pub bits: u64,
    /// The number as JSON writes it; `null` for what is infinite or not a number.
    pub json: JsonValue,
}

/// The model of a `Double`.
pub struct DoubleView {
    pub bits: u64,
    pub json: Json,
}

/// The encoding of positive infinity: larger magnitudes encode no number.
pub const INFINITE_MAGNITUDE: u64 = 0x7ff0_0000_0000_0000;

impl View for Double {
    type V = DoubleView;

    open spec fn view(&self) -> DoubleView {
        DoubleView { bits: self.bits, json: self.json@ }
    }
}

impl Clone for Double {
    fn clone(&self) -> (r: Self)
        ensures
            r@ == self@,
    {
        Double { bits: self.bits, json: self.json.copy() }
    }
}

impl DoubleView {
    pub open spec fn negative(self) -> bool {
        self.bits >= 0x8000_0000_0000_0000
    }

    /// The encoding without the sign.
    pub open spec fn magnitude(self) -> int {
        if self.negative() {
            self.bits - 0x8000_0000_0000_0000
        } else {
            self.bits as int
        }
    }

    pub open spec fn nan(self) -> bool {
        self.magnitude() > INFINITE_MAGNITUDE
    }

    /// Neither infinite nor "not a number".
    pub open spec fn finite(self) -> bool {
        self.magnitude() < INFINITE_MAGNITUDE
    }

    /// The place among the ordered numbers; both zeros share one.
    pub open spec fn rank(self) -> int {
        if self.negative() {
            -self.magnitude()
        } else {
            self.magnitude()
        }
    }

    /// The comparison `self <= other`, which holds of nothing that is not a number.
    pub open spec fn le(self, other: DoubleView) -> bool {
        !self.nan() && !other.nan() && self.rank() <= other.rank()
    }

    /// The comparison `self > 0`.
    pub open spec fn positive(self) -> bool {
        !self.nan() && self.rank() > 0
    }

    /// The comparison `self <= 0`.
    pub open spec fn not_positive(self) -> bool {
        !self.nan() && self.rank() <= 0
    }
}

impl Double {
    fn ranked(&self) -> (r: i64)
        ensures
            r == self@.rank(),
    {
        if self.bits >= 0x8000_0000_0000_0000 {
            -((self.bits - 0x8000_0000_0000_0000) as i64)
        } else {
            self.bits as i64
        }
    }

    pub fn is_nan(&self) -> (r: bool)
        ensures
            r == self@.nan(),
    {
        let k = self.ranked();
        k > INFINITE_MAGNITUDE as i64 || k < -(INFINITE_MAGNITUDE as i64)
    }

    pub fn is_finite(&self) -> (r: bool)
        ensures
            r == self@.finite(),
    {
        let k = self.ranked();
        k < INFINITE_MAGNITUDE as i64 && k > -(INFINITE_MAGNITUDE as i64)
    }

    /// `self <= other`.
    pub fn at_most(&self, other: &Double) -> (r: bool)
        ensures
            r == self@.le(other@),
    {
        !self.is_nan() && !other.is_nan() && self.ranked() <= other.ranked()
    }

    /// `self > 0`.
    pub fn is_positive(&self) -> (r: bool)
        ensures
            r == self@.positive(),
    {
        !self.is_nan() && self.ranked() > 0
    }

    /// `self <= 0`.
    pub fn is_not_positive(&self) -> (r: bool)
        ensures
            r == self@.not_positive(),
    {
        !self.is_nan() && self.ranked() <= 0
    }

    /// The number as JSON writes it.
    pub fn to_json(&self) -> (r: JsonValue)
        ensures
            r@ == self@.json,
    {
        self.json.copy()
    }
}

/// The document of an optional number: `null` when there is none.
pub open spec fn opt_double_json(d: Option<DoubleView>) -> Json {
    match d {
        Some(d) => d.json,
        None => Json::Null,
    }
}

/// The document of an optional number: `null` when there is none.
pub fn opt_double(d: &Option<Double>) -> (r: JsonValue)
    ensures
        r@ == opt_double_json(crate::text::opt_view(*d)),
{
    match d {
        Some(d) => d.to_json(),
        None => JsonValue::Null,
    }
}

/// Numbers are totally preordered; what is no number compares with nothing.
pub proof fn doubles_are_ordered(a: DoubleView, b: DoubleView, c: DoubleView)
    ensures
        a.nan() ==> !a.le(b) && !b.le(a) && !a.positive() && !a.not_positive(),
        !a.nan() && !b.nan() ==> a.le(b) || b.le(a),
        a.le(b) && b.le(c) ==> a.le(c),
        a.finite() ==> !a.nan() && a.positive() == !a.not_positive(),
{
}

} // verus!
