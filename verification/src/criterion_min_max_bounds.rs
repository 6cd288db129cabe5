//! Optional lower and upper bounds, as the criteria and range arguments use
//! them: `3`, `1..5`, `2..` and `..7` read to exact, closed and open bounds.

use vstd::prelude::*;

verus! {

#[derive(Debug, Clone, Copy, PartialEq, Eq)]
pub struct BoundsModel<T> {
    pub min: Option<T>,
    pub max: Option<T>,
}

impl<T: Copy> BoundsModel<T> {
    pub fn new(min: Option<T>, max: Option<T>) -> (r: Self)
        ensures
            r.min == min,
            r.max == max,
    {
        BoundsModel { min, max }
    }

    pub fn any() -> (r: Self)
        ensures
            r.min is None,
            r.max is None,
    {
        BoundsModel { min: None, max: None }
    }

    pub fn exactly(value: T) -> (r: Self)
        ensures
            r.min == Some(value),
            r.max == Some(value),
    {
        BoundsModel { min: Some(value), max: Some(value) }
    }

    pub fn between(min: T, max: T) -> (r: Self)
        ensures
            r.min == Some(min),
            r.max == Some(max),
    {
        BoundsModel { min: Some(min), max: Some(max) }
    }

    pub fn at_least(min: T) -> (r: Self)
        ensures
            r.min == Some(min),
            r.max is None,
    {
        BoundsModel { min: Some(min), max: None }
    }

    pub fn at_most(max: T) -> (r: Self)
        ensures
            r.min is None,
            r.max == Some(max),
    {
        BoundsModel { min: None, max: Some(max) }
    }

    pub fn is_any(&self) -> (r: bool)
        ensures
            r == (self.min is None && self.max is None),
    {
        self.min.is_none() && self.max.is_none()
    }
}

/// Both bounds are given and the lower one is above the upper one.
pub open spec fn swapped(min: Option<i32>, max: Option<i32>) -> bool {
    match (min, max) {
        (Some(a), Some(b)) => a > b,
        _ => false,
    }
}

/// The value lies within the bounds that are given.
pub open spec fn within(min: Option<i32>, max: Option<i32>, value: i32) -> bool {
    &&& (match min { Some(a) => a <= value, None => true })
    &&& (match max { Some(b) => value <= b, None => true })
}

impl BoundsModel<i32> {
    pub fn are_swapped(&self) -> (r: bool)
        ensures
            r == swapped(self.min, self.max),
    {
        match (self.min, self.max) {
            (Some(a), Some(b)) => a > b,
            _ => false,
        }
    }

    pub fn matches(&self, value: i32) -> (r: bool)
        ensures
            r == within(self.min, self.max, value),
    {
        let lower = match self.min {
            Some(a) => a <= value,
            None => true,
        };
        let upper = match self.max {
            Some(b) => value <= b,
            None => true,
        };
        lower && upper
    }
}

/// Integer bounds whose lower bound is not above the upper one.
#[derive(Debug, Clone, Copy, PartialEq, Eq)]
pub struct IntsBoundsModel {
    bounds: BoundsModel<i32>,
}

impl IntsBoundsModel {
    pub closed spec fn view(&self) -> BoundsModel<i32> {
        self.bounds
    }

    pub fn new(bounds: BoundsModel<i32>) -> (r: Self)
        ensures
            r@ == bounds,
    {
        IntsBoundsModel { bounds }
    }

    pub fn any() -> (r: Self)
        ensures
            r@.min is None,
            r@.max is None,
    {
        IntsBoundsModel { bounds: BoundsModel::any() }
    }

    pub fn exactly(value: i32) -> (r: Self)
        ensures
            r@.min == Some(value),
            r@.max == Some(value),
    {
        IntsBoundsModel { bounds: BoundsModel::exactly(value) }
    }

    pub fn between(min: i32, max: i32) -> (r: Self)
        ensures
            r@.min == Some(min),
            r@.max == Some(max),
    {
        IntsBoundsModel { bounds: BoundsModel::between(min, max) }
    }

    pub fn at_least(min: i32) -> (r: Self)
        ensures
            r@.min == Some(min),
            r@.max is None,
    {
        IntsBoundsModel { bounds: BoundsModel::at_least(min) }
    }

    pub fn at_most(max: i32) -> (r: Self)
        ensures
            r@.min is None,
            r@.max == Some(max),
    {
        IntsBoundsModel { bounds: BoundsModel::at_most(max) }
    }

    pub fn bounds(&self) -> (r: BoundsModel<i32>)
        ensures
            r == self@,
    {
        self.bounds
    }

    pub fn matches(&self, value: i32) -> (r: bool)
        ensures
            r == within(self@.min, self@.max, value),
    {
        self.bounds.matches(value)
    }
}

} // verus!
