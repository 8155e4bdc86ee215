//! A scripted event: target group names and per-subgroup mood deltas,
//! immutable after construction.

use vstd::prelude::*;

verus! {

/// Mathematical image of an `Issue`: its name, the names of the groups it
/// can affect, and the name-to-delta effect table, deltas in fixed-point
/// millionths.
pub struct IssueV {
    pub name: Seq<char>,
    pub recipients: Seq<Seq<char>>,
    pub effects: Seq<(Seq<char>, int)>,
}

/// The delta the effect table lists for `name`: the first entry whose key
/// matches exactly, absent when none does.
pub open spec fn effect_of(effects: Seq<(Seq<char>, int)>, name: Seq<char>) -> Option<int>
    decreases effects.len(),
{
    if effects.len() == 0 {
        None
    } else if effects[0].0 == name {
        Some(effects[0].1)
    } else {
        effect_of(effects.drop_first(), name)
    }
}

/// Image of an effect table held as a vector of (key, delta) pairs.
pub open spec fn effects_view(m: Seq<(String, i64)>) -> Seq<(Seq<char>, int)> {
    Seq::new(m.len(), |i: int| (m[i].0@, m[i].1 as int))
}

/// Image of a vector of names.
pub open spec fn names_view(v: Seq<String>) -> Seq<Seq<char>> {
    Seq::new(v.len(), |i: int| v[i]@)
}

/// An immutable scripted event. `effect_recipients` names the interest
/// groups it applies to; `effects_map` maps subgroup names to mood deltas
/// (fixed-point millionths), the first entry for a key winning.
pub struct Issue {
    name: String,
    effect_recipients: Vec<String>,
    effects_map: Vec<(String, i64)>,
}

impl View for Issue {
    type V = IssueV;

    closed spec fn view(&self) -> IssueV {
        IssueV {
            name: self.name@,
            recipients: names_view(self.effect_recipients@),
            effects: effects_view(self.effects_map@),
        }
    }
}

impl Issue {
    /// Stores the given values verbatim: no check that any recipient or key
    /// names a real group or subgroup (unmatched names stay inert).
    pub fn new(name: String, effect_recipients: Vec<String>, effects_map: Vec<(String, i64)>) -> (r:
        Issue)
        ensures
            r@ == (IssueV {
                name: name@,
                recipients: names_view(effect_recipients@),
                effects: effects_view(effects_map@),
            }),
    {
        Issue { name, effect_recipients, effects_map }
    }

    pub fn get_effect_recipients(&self) -> (r: &Vec<String>)
        ensures
            names_view(r@) == self@.recipients,
    {
        &self.effect_recipients
    }

    /// The delta for that subgroup name if the effect table holds one.
    pub fn get_subgroup_effects(&self, subgroup: &String) -> (r: Option<i64>)
        ensures
            (match r {
                Some(d) => effect_of(self@.effects, subgroup@) == Some(d as int),
                None => effect_of(self@.effects, subgroup@) is None,
            }),
    {
        let n: usize = self.effects_map.len();
        let mut i: usize = 0;
        proof {
            assert(self@.effects.skip(0) =~= self@.effects);
        }
        while i < n
            invariant
                n == self.effects_map@.len(),
                0 <= i <= n,
                effect_of(self@.effects, subgroup@) == effect_of(
                    self@.effects.skip(i as int),
                    subgroup@,
                ),
            decreases n - i,
        {
            if self.effects_map[i].0 == *subgroup {
                return Some(self.effects_map[i].1);
            }
            proof {
                assert(self@.effects.skip(i as int)[0] == self@.effects[i as int]);
                assert(self@.effects.skip(i as int).drop_first() =~= self@.effects.skip(
                    i as int + 1,
                ));
            }
            i = i + 1;
        }
        None
    }

    pub fn get_name(&self) -> (r: &String)
        ensures
            r@ == self@.name,
    {
        &self.name
    }
}

} // verus!
