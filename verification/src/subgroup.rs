//! The leaf entity: a named fraction of an interest group carrying a mood.

use vstd::prelude::*;

use crate::num::{MOOD_LIMIT, RATIO_LIMIT, clip_mood, mood_add};

verus! {

/// Mathematical image of a `Subgroup`: its name, its share of the parent
/// group and its mood, the two numbers read as fixed-point millionths.
pub struct SubgroupV {
    pub name: Seq<char>,
    pub ratio: int,
    pub mood: int,
}

impl SubgroupV {
    /// The ranges every stored subgroup keeps: ratio and mood within their
    /// fixed-point bounds.
    pub open spec fn wf(self) -> bool {
        &&& -(RATIO_LIMIT as int) <= self.ratio <= RATIO_LIMIT as int
        &&& -(MOOD_LIMIT as int) <= self.mood <= MOOD_LIMIT as int
    }
}

/// A named fraction of an interest group with a mood scalar.
/// `ratio` is its share of the parent group and `mood` its current
/// sentiment, both fixed-point millionths.
pub struct Subgroup {
    pub name: String,
    pub ratio: i64,
    pub mood: i64,
}

impl View for Subgroup {
    type V = SubgroupV;

    open spec fn view(&self) -> SubgroupV {
        SubgroupV { name: self.name@, ratio: self.ratio as int, mood: self.mood as int }
    }
}

impl Subgroup {
    /// Stores the given values verbatim; the fixed-point bounds are the only
    /// demand on them.
    pub fn new(name: String, ratio: i64, mood: i64) -> (r: Subgroup)
        requires
            -RATIO_LIMIT <= ratio <= RATIO_LIMIT,
            -MOOD_LIMIT <= mood <= MOOD_LIMIT,
        ensures
            r@ == (SubgroupV { name: name@, ratio: ratio as int, mood: mood as int }),
            r@.wf(),
    {
        Subgroup { name, ratio, mood }
    }

    pub fn get_name(&self) -> (r: &String)
        ensures
            r@ == self@.name,
    {
        &self.name
    }

    /// Replaces the ratio, leaving name and mood as they are.
    pub(crate) fn set_ratio(&mut self, ratio: i64)
        ensures
            final(self)@ == (SubgroupV { ratio: ratio as int, ..old(self)@ }),
    {
        self.ratio = ratio;
    }

    /// Adds the delta to the mood; the sum saturates at the mood bound
    /// instead of overflowing. Name and ratio are untouched.
    pub fn apply_effect(&mut self, delta: i64)
        requires
            old(self)@.wf(),
        ensures
            final(self)@ == (SubgroupV { mood: clip_mood(old(self)@.mood + delta), ..old(self)@ }),
            final(self)@.wf(),
    {
        self.mood = mood_add(self.mood, delta);
    }
}

} // verus!
