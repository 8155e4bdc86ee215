//! An interest group: an ordered collection of subgroups, a share of the
//! total population, and the record of issues ever applied to it.

use vstd::prelude::*;

use crate::issue::{Issue, IssueV, effect_of, names_view};
use crate::num::{
    MAX_SUBGROUPS, MOOD_LIMIT, RATIO_LIMIT, SCALE, clip_mood, clip_ratio, div_trunc,
    div_trunc_i128, lemma_div_add_le,
};
use crate::rng::random_in_range;
use crate::subgroup::{Subgroup, SubgroupV};

verus! {

/// Mathematical image of an `InterestGroup`.
pub struct InterestGroupV {
    pub name: Seq<char>,
    pub population_ratio: int,
    pub subgroups: Seq<SubgroupV>,
    pub applicable_issues: Seq<Seq<char>>,
}

/// Image of a vector of subgroups.
pub open spec fn subgroups_view(s: Seq<Subgroup>) -> Seq<SubgroupV> {
    Seq::new(s.len(), |i: int| s[i]@)
}

/// Sum over the subgroups of ratio times mood: the group's weighted mood,
/// in squared fixed-point units (millionths of a millionth).
pub open spec fn wsum(s: Seq<SubgroupV>) -> int
    decreases s.len(),
{
    if s.len() == 0 {
        0
    } else {
        wsum(s.drop_last()) + s.last().ratio * s.last().mood
    }
}

/// Sum of the subgroups' ratios.
pub open spec fn sum_ratios(s: Seq<SubgroupV>) -> int
    decreases s.len(),
{
    if s.len() == 0 {
        0
    } else {
        sum_ratios(s.drop_last()) + s.last().ratio
    }
}

/// The first subgroup whose name matches exactly, absent when none does.
pub open spec fn found_subgroup(s: Seq<SubgroupV>, name: Seq<char>) -> Option<SubgroupV>
    decreases s.len(),
{
    if s.len() == 0 {
        None
    } else if s[0].name == name {
        Some(s[0])
    } else {
        found_subgroup(s.drop_first(), name)
    }
}

impl InterestGroupV {
    /// What every stored interest group keeps: bounded population ratio and
    /// subgroup count, well-formed subgroups, and no repeated entry in the
    /// applied-issue record.
    pub open spec fn wf(self) -> bool {
        &&& -(RATIO_LIMIT as int) <= self.population_ratio <= RATIO_LIMIT as int
        &&& self.subgroups.len() <= MAX_SUBGROUPS
        &&& forall|i: int| 0 <= i < self.subgroups.len() ==> self.subgroups[i].wf()
        &&& forall|i: int, j: int|
            0 <= i < j < self.applicable_issues.len() ==> self.applicable_issues[i]
                != self.applicable_issues[j]
    }
}

/// The weighted mood stays within `len * RATIO_LIMIT * MOOD_LIMIT`.
pub proof fn lemma_wsum_bound(s: Seq<SubgroupV>)
    requires
        forall|i: int| 0 <= i < s.len() ==> s[i].wf(),
    ensures
        -(s.len() * (RATIO_LIMIT as int) * (MOOD_LIMIT as int)) <= wsum(s) <= s.len() * (
        RATIO_LIMIT as int) * (MOOD_LIMIT as int),
    decreases s.len(),
{
    if s.len() > 0 {
        assert(forall|i: int| 0 <= i < s.drop_last().len() ==> s.drop_last()[i] == s[i]);
        lemma_wsum_bound(s.drop_last());
        let last = s.last();
        assert(-((RATIO_LIMIT as int) * (MOOD_LIMIT as int)) <= last.ratio * last.mood <= (
        RATIO_LIMIT as int) * (MOOD_LIMIT as int)) by (nonlinear_arith)
            requires
                -(RATIO_LIMIT as int) <= last.ratio <= RATIO_LIMIT as int,
                -(MOOD_LIMIT as int) <= last.mood <= MOOD_LIMIT as int,
        ;
    }
}

/// A found subgroup is one of the sequence's elements.
pub proof fn lemma_found_is_element(s: Seq<SubgroupV>, name: Seq<char>)
    ensures
        (match found_subgroup(s, name) {
            Some(v) => exists|i: int| 0 <= i < s.len() && s[i] == v,
            None => true,
        }),
    decreases s.len(),
{
    if s.len() > 0 && s[0].name != name {
        lemma_found_is_element(s.drop_first(), name);
        if found_subgroup(s.drop_first(), name) is Some {
            let v = found_subgroup(s.drop_first(), name)->Some_0;
            let i = choose|i: int| 0 <= i < s.drop_first().len() && s.drop_first()[i] == v;
            assert(s[i + 1] == v);
        }
    }
}

/// Sum of a sequence of raw weights.
spec fn sum_weights(s: Seq<i64>) -> int
    decreases s.len(),
{
    if s.len() == 0 {
        0
    } else {
        sum_weights(s.drop_last()) + s.last()
    }
}

/// The delta an issue applies to a subgroup of the given name: the listed
/// effect, or zero when the name is not in the effect table.
pub open spec fn delta_for(issue: IssueV, name: Seq<char>) -> int {
    match effect_of(issue.effects, name) {
        Some(d) => d,
        None => 0,
    }
}

/// One subgroup after an issue: its mood moved by the issue's delta for its
/// name (saturating at the mood bound), name and ratio untouched.
pub open spec fn apply_issue_sg(sg: SubgroupV, issue: IssueV) -> SubgroupV {
    SubgroupV { mood: clip_mood(sg.mood + delta_for(issue, sg.name)), ..sg }
}

/// The applied-issue record after an issue: unchanged when the name is
/// already present, else the name appended.
pub open spec fn record_issue(names: Seq<Seq<char>>, name: Seq<char>) -> Seq<Seq<char>> {
    if names.contains(name) {
        names
    } else {
        names.push(name)
    }
}

/// A whole group after an issue: the issue's name recorded, every subgroup
/// moved by its delta.
pub open spec fn apply_issue_g(g: InterestGroupV, issue: IssueV) -> InterestGroupV {
    InterestGroupV {
        subgroups: Seq::new(g.subgroups.len(), |i: int| apply_issue_sg(g.subgroups[i], issue)),
        applicable_issues: record_issue(g.applicable_issues, issue.name),
        ..g
    }
}

/// An issue whose effect table names no subgroup of the group leaves every
/// mood unchanged, yet its name is still recorded in the group's
/// applied-issue record.
pub proof fn lemma_inert_issue(g: InterestGroupV, issue: IssueV)
    requires
        g.wf(),
        forall|i: int|
            0 <= i < g.subgroups.len() ==> effect_of(
                issue.effects,
                (#[trigger] g.subgroups[i]).name,
            ) is None,
    ensures
        apply_issue_g(g, issue).subgroups == g.subgroups,
        apply_issue_g(g, issue).applicable_issues == record_issue(g.applicable_issues, issue.name),
        apply_issue_g(g, issue).applicable_issues.contains(issue.name),
{
    assert forall|i: int| 0 <= i < g.subgroups.len() implies apply_issue_sg(
        #[trigger] g.subgroups[i],
        issue,
    ) == g.subgroups[i] by {
        assert(g.subgroups[i].wf());
        assert(delta_for(issue, g.subgroups[i].name) == 0);
    }
    assert(apply_issue_g(g, issue).subgroups =~= g.subgroups);
    if !g.applicable_issues.contains(issue.name) {
        let pushed = g.applicable_issues.push(issue.name);
        assert(pushed[g.applicable_issues.len() as int] == issue.name);
    }
}

/// Applying the same issue twice accumulates its deltas twice — moods move
/// additively (saturating only at the mood bound) — while the applied-issue
/// record gains the issue's name exactly once.
pub proof fn lemma_issue_applied_twice(g: InterestGroupV, issue: IssueV)
    requires
        g.wf(),
    ensures
        forall|i: int|
            0 <= i < g.subgroups.len() ==> apply_issue_g(apply_issue_g(g, issue), issue).subgroups[i].mood
                == clip_mood(
                clip_mood(
                    (#[trigger] g.subgroups[i]).mood + delta_for(issue, g.subgroups[i].name),
                ) + delta_for(issue, g.subgroups[i].name),
            ),
        forall|i: int|
            0 <= i < g.subgroups.len() ==> ((-(MOOD_LIMIT as int) <= (
            #[trigger] g.subgroups[i]).mood + delta_for(issue, g.subgroups[i].name)
                <= MOOD_LIMIT as int && -(MOOD_LIMIT as int) <= g.subgroups[i].mood + 2 * delta_for(
                issue,
                g.subgroups[i].name,
            ) <= MOOD_LIMIT as int) ==> apply_issue_g(
                apply_issue_g(g, issue),
                issue,
            ).subgroups[i].mood == g.subgroups[i].mood + 2 * delta_for(
                issue,
                g.subgroups[i].name,
            )),
        apply_issue_g(apply_issue_g(g, issue), issue).applicable_issues == record_issue(
            g.applicable_issues,
            issue.name,
        ),
        g.applicable_issues.len() == 0 ==> apply_issue_g(
            apply_issue_g(g, issue),
            issue,
        ).applicable_issues =~= seq![issue.name],
{
    let g1 = apply_issue_g(g, issue);
    assert(forall|i: int|
        0 <= i < g.subgroups.len() ==> (#[trigger] g1.subgroups[i]).name == g.subgroups[i].name);
    let recorded = record_issue(g.applicable_issues, issue.name);
    if !g.applicable_issues.contains(issue.name) {
        assert(recorded[g.applicable_issues.len() as int] == issue.name);
    }
    assert(recorded.contains(issue.name));
    assert(record_issue(recorded, issue.name) == recorded);
    if g.applicable_issues.len() == 0 {
        assert(!g.applicable_issues.contains(issue.name));
        assert(recorded =~= seq![issue.name]);
    }
}

/// A sum of nonnegative weights is nonnegative.
proof fn lemma_sum_weights_nonneg(s: Seq<i64>)
    requires
        forall|j: int| 0 <= j < s.len() ==> s[j] >= 0,
    ensures
        sum_weights(s) >= 0,
    decreases s.len(),
{
    if s.len() > 0 {
        assert(forall|j: int| 0 <= j < s.drop_last().len() ==> s.drop_last()[j] == s[j]);
        lemma_sum_weights_nonneg(s.drop_last());
    }
}

/// For nonnegative weights, a prefix sums to no more than the whole.
proof fn lemma_sum_weights_prefix_le(s: Seq<i64>, i: int)
    requires
        0 <= i <= s.len(),
        forall|j: int| 0 <= j < s.len() ==> s[j] >= 0,
    ensures
        sum_weights(s.take(i)) <= sum_weights(s),
    decreases s.len() - i,
{
    if i == s.len() {
        assert(s.take(i) =~= s);
    } else {
        assert(s.take(i + 1).drop_last() =~= s.take(i));
        assert(s.take(i + 1).last() == s[i]);
        lemma_sum_weights_prefix_le(s, i + 1);
    }
}

/// An interest group: named subgroups in construction order, a population
/// share in fixed-point millionths, and the names of every issue ever
/// applied to it.
pub struct InterestGroup {
    pub name: String,
    pub population_ratio: i64,
    pub subgroups: Vec<Subgroup>,
    pub applicable_issues: Vec<String>,
}

impl View for InterestGroup {
    type V = InterestGroupV;

    open spec fn view(&self) -> InterestGroupV {
        InterestGroupV {
            name: self.name@,
            population_ratio: self.population_ratio as int,
            subgroups: subgroups_view(self.subgroups@),
            applicable_issues: names_view(self.applicable_issues@),
        }
    }
}

impl InterestGroup {
    /// Builds the group with one subgroup per given name, in order. Each
    /// subgroup draws a uniformly random raw weight in [0.1, 1.0) of the
    /// fixed-point unit; the weights are normalized so that the subgroup
    /// ratios sum to exactly `SCALE` (the last subgroup absorbs the rounding
    /// remainder). Each initial mood is an independent uniform draw from
    /// [-SCALE, SCALE]. The applied-issue record starts empty.
    pub fn new(name: String, population_ratio: i64, subgroup_names: Vec<String>) -> (r:
        InterestGroup)
        requires
            -RATIO_LIMIT <= population_ratio <= RATIO_LIMIT,
            subgroup_names@.len() <= MAX_SUBGROUPS,
        ensures
            r@.name == name@,
            r@.population_ratio == population_ratio as int,
            r@.applicable_issues == Seq::<Seq<char>>::empty(),
            r@.subgroups.len() == subgroup_names@.len(),
            forall|i: int|
                0 <= i < subgroup_names@.len() ==> (#[trigger] r@.subgroups[i]).name
                    == subgroup_names@[i]@,
            forall|i: int|
                0 <= i < subgroup_names@.len() ==> 0 <= (#[trigger] r@.subgroups[i]).ratio
                    <= SCALE as int,
            forall|i: int|
                0 <= i < subgroup_names@.len() ==> -(SCALE as int) <= (
                #[trigger] r@.subgroups[i]).mood <= SCALE as int,
            subgroup_names@.len() > 0 ==> sum_ratios(r@.subgroups) == SCALE as int,
            r@.wf(),
    {
        let n: usize = subgroup_names.len();
        // raw weights, uniform in [0.1, 1.0) of the fixed-point unit
        let mut weights: Vec<i64> = Vec::new();
        let mut total: i64 = 0;
        let mut i: usize = 0;
        while i < n
            invariant
                0 <= i <= n,
                n <= MAX_SUBGROUPS,
                weights@.len() == i,
                forall|j: int| 0 <= j < i ==> 100_000 <= #[trigger] weights@[j] <= 999_999,
                total == sum_weights(weights@),
                0 <= total <= i * 1_000_000,
                i > 0 ==> total >= 100_000,
            decreases n - i,
        {
            let w: i64 = random_in_range(100_000, 999_999);
            proof {
                assert(weights@.push(w).drop_last() =~= weights@);
            }
            total = total + w;
            weights.push(w);
            i = i + 1;
        }
        // normalize into ratios summing to exactly SCALE; draw the moods
        let mut subgroups: Vec<Subgroup> = Vec::new();
        let mut partial: i64 = 0;
        let mut i: usize = 0;
        proof {
            if n > 0 {
                vstd::arithmetic::div_mod::lemma_div_pos_is_pos(0, total as int);
                vstd::arithmetic::div_mod::lemma_div_nonincreasing(0, total as int);
                assert(weights@.take(0) =~= Seq::<i64>::empty());
            }
        }
        while i < n
            invariant
                0 <= i <= n,
                n <= MAX_SUBGROUPS,
                n == subgroup_names@.len(),
                weights@.len() == n,
                forall|j: int| 0 <= j < n ==> 100_000 <= #[trigger] weights@[j] <= 999_999,
                total == sum_weights(weights@),
                n > 0 ==> total >= 100_000,
                subgroups@.len() == i,
                forall|j: int|
                    0 <= j < i ==> (#[trigger] subgroups@[j])@.name == subgroup_names@[j]@,
                forall|j: int| 0 <= j < i ==> 0 <= (#[trigger] subgroups@[j])@.ratio <= SCALE as int,
                forall|j: int|
                    0 <= j < i ==> -(SCALE as int) <= (#[trigger] subgroups@[j])@.mood
                        <= SCALE as int,
                partial == sum_ratios(subgroups_view(subgroups@)),
                0 <= partial,
                n > 0 ==> partial <= (sum_weights(weights@.take(i as int)) * (SCALE as int)) / (
                total as int),
                partial <= SCALE,
                i == n && n > 0 ==> partial == SCALE,
            decreases n - i,
        {
            let ghost t = total as int;
            let ghost pre = sum_weights(weights@.take(i as int));
            proof {
                // one more weight extends the prefix sum
                assert(weights@.take(i as int + 1).drop_last() =~= weights@.take(i as int));
                assert(weights@.take(i as int + 1).last() == weights@[i as int]);
                lemma_sum_weights_prefix_le(weights@, i as int + 1);
                assert(forall|j: int|
                    0 <= j < weights@.take(i as int).len() ==> #[trigger] weights@.take(
                        i as int,
                    )[j] >= 0);
                lemma_sum_weights_nonneg(weights@.take(i as int));
                assert(pre >= 0);
                assert(pre + weights@[i as int] <= t);
                assert(weights@[i as int] <= t);
                // a prefix sum scaled up stays at most SCALE
                assert((pre + weights@[i as int]) * (SCALE as int) <= t * (SCALE as int));
                vstd::arithmetic::div_mod::lemma_div_is_ordered(
                    (pre + weights@[i as int]) * (SCALE as int),
                    t * (SCALE as int),
                    t,
                );
                vstd::arithmetic::div_mod::lemma_div_multiples_vanish(SCALE as int, t);
                assert(t * (SCALE as int) == (SCALE as int) * t);
            }
            let w: i64 = weights[i];
            let ratio: i64;
            if i + 1 == n {
                ratio = SCALE - partial;
                proof {
                    assert(weights@.take(n as int) =~= weights@);
                }
            } else {
                let num: u128 = (w as u128) * (SCALE as u128);
                let q: u128 = num / (total as u128);
                proof {
                    assert(q as int == (w as int * (SCALE as int)) / t);
                    // the new quotient is nonnegative and at most SCALE
                    vstd::arithmetic::div_mod::lemma_div_pos_is_pos(w as int * (SCALE as int), t);
                    assert(w as int * (SCALE as int) <= t * (SCALE as int));
                    vstd::arithmetic::div_mod::lemma_div_is_ordered(
                        w as int * (SCALE as int),
                        t * (SCALE as int),
                        t,
                    );
                    // partial + quotient keeps the scaled-prefix bound
                    lemma_div_add_le(pre * (SCALE as int), w as int * (SCALE as int), t);
                    vstd::arithmetic::div_mod::lemma_div_pos_is_pos(pre * (SCALE as int), t);
                }
                ratio = q as i64;
            }
            let mood: i64 = random_in_range(-SCALE, SCALE);
            let sg = Subgroup::new(subgroup_names[i].clone(), ratio, mood);
            proof {
                assert(subgroups_view(subgroups@.push(sg)).drop_last() =~= subgroups_view(
                    subgroups@,
                ));
            }
            subgroups.push(sg);
            partial = partial + ratio;
            i = i + 1;
        }
        let r = InterestGroup { name, population_ratio, subgroups, applicable_issues: Vec::new() };
        proof {
            assert(names_view(r.applicable_issues@) =~= Seq::<Seq<char>>::empty());
        }
        r
    }

    pub fn get_name(&self) -> (r: &String)
        ensures
            r@ == self@.name,
    {
        &self.name
    }

    /// The group's weighted mood: the sum over its subgroups of ratio times
    /// mood, exact, in squared fixed-point units. An empty group yields 0.
    pub fn weighted_mood(&self) -> (r: i128)
        requires
            self@.wf(),
        ensures
            r == wsum(self@.subgroups),
            self@.subgroups.len() == 0 ==> r == 0,
    {
        let n: usize = self.subgroups.len();
        let mut acc: i128 = 0;
        let mut i: usize = 0;
        while i < n
            invariant
                self@.wf(),
                0 <= i <= n,
                n == self.subgroups@.len(),
                acc == wsum(self@.subgroups.take(i as int)),
                -(i * (RATIO_LIMIT as int) * (MOOD_LIMIT as int)) <= acc <= i * (RATIO_LIMIT as int)
                    * (MOOD_LIMIT as int),
            decreases n - i,
        {
            let r_i: i64 = self.subgroups[i].ratio;
            let m_i: i64 = self.subgroups[i].mood;
            proof {
                assert(self@.subgroups[i as int].wf());
                assert(-((RATIO_LIMIT as int) * (MOOD_LIMIT as int)) <= r_i as int * (m_i as int)
                    <= (RATIO_LIMIT as int) * (MOOD_LIMIT as int)) by (nonlinear_arith)
                    requires
                        -(RATIO_LIMIT as int) <= r_i as int <= RATIO_LIMIT as int,
                        -(MOOD_LIMIT as int) <= m_i as int <= MOOD_LIMIT as int,
                ;
                assert(self@.subgroups.take(i as int + 1).drop_last() =~= self@.subgroups.take(
                    i as int,
                ));
                assert(self@.subgroups.take(i as int + 1).last() == self@.subgroups[i as int]);
            }
            let term: i128 = (r_i as i128) * (m_i as i128);
            acc = acc + term;
            i = i + 1;
        }
        proof {
            assert(self@.subgroups.take(n as int) =~= self@.subgroups);
        }
        acc
    }

    /// The group's contribution to the society's mood: its population ratio
    /// times its weighted mood, exactly, with no further scaling.
    pub fn population_weighted_mood(&self) -> (r: i128)
        requires
            self@.wf(),
        ensures
            r == self@.population_ratio * wsum(self@.subgroups),
    {
        let wm: i128 = self.weighted_mood();
        proof {
            lemma_wsum_bound(self@.subgroups);
            let b = (MAX_SUBGROUPS as int) * (RATIO_LIMIT as int) * (MOOD_LIMIT as int);
            assert(-((RATIO_LIMIT as int) * b) <= self@.population_ratio * wsum(self@.subgroups)
                <= (RATIO_LIMIT as int) * b) by (nonlinear_arith)
                requires
                    -(RATIO_LIMIT as int) <= self@.population_ratio <= RATIO_LIMIT as int,
                    -b <= wsum(self@.subgroups) <= b,
                    b == (MAX_SUBGROUPS as int) * (RATIO_LIMIT as int) * (MOOD_LIMIT as int),
                    self@.subgroups.len() <= MAX_SUBGROUPS,
            ;
        }
        (self.population_ratio as i128) * wm
    }

    /// The first subgroup matching the name exactly, if any.
    pub fn get_subgroup(&self, name: &String) -> (r: Option<&Subgroup>)
        ensures
            (match r {
                Some(sg) => found_subgroup(self@.subgroups, name@) == Some(sg@),
                None => found_subgroup(self@.subgroups, name@) is None,
            }),
    {
        let n: usize = self.subgroups.len();
        let mut i: usize = 0;
        proof {
            assert(self@.subgroups.skip(0) =~= self@.subgroups);
        }
        while i < n
            invariant
                0 <= i <= n,
                n == self.subgroups@.len(),
                found_subgroup(self@.subgroups, name@) == found_subgroup(
                    self@.subgroups.skip(i as int),
                    name@,
                ),
            decreases n - i,
        {
            proof {
                assert(self@.subgroups.skip(i as int)[0] == self@.subgroups[i as int]);
            }
            if self.subgroups[i].name == *name {
                return Some(&self.subgroups[i]);
            }
            proof {
                assert(self@.subgroups.skip(i as int).drop_first() =~= self@.subgroups.skip(
                    i as int + 1,
                ));
            }
            i = i + 1;
        }
        None
    }

    /// The effective population share of the named subgroup: population
    /// ratio times subgroup ratio, in squared fixed-point units.
    pub fn subgroup_population_share(&self, name: &String) -> (r: Option<i64>)
        requires
            self@.wf(),
        ensures
            (match found_subgroup(self@.subgroups, name@) {
                Some(sg) => r matches Some(x) && x as int == self@.population_ratio * sg.ratio,
                None => r is None,
            }),
    {
        match self.get_subgroup(name) {
            Some(sg) => {
                proof {
                    lemma_found_is_element(self@.subgroups, name@);
                    assert(sg@.wf());
                    assert(-((RATIO_LIMIT as int) * (RATIO_LIMIT as int)) <= self@.population_ratio
                        * sg@.ratio <= (RATIO_LIMIT as int) * (RATIO_LIMIT as int))
                        by (nonlinear_arith)
                        requires
                            -(RATIO_LIMIT as int) <= self@.population_ratio <= RATIO_LIMIT as int,
                            -(RATIO_LIMIT as int) <= sg@.ratio <= RATIO_LIMIT as int,
                    ;
                }
                let p: i128 = (self.population_ratio as i128) * (sg.ratio as i128);
                Some(p as i64)
            },
            None => None,
        }
    }

    /// Rescales every subgroup ratio by the current ratio sum, truncating
    /// toward zero and clipping into the ratio bound; when the sum is zero
    /// or negative nothing changes. Names and moods are untouched.
    pub fn normalize_subgroups(&mut self)
        requires
            old(self)@.wf(),
        ensures
            final(self)@.name == old(self)@.name,
            final(self)@.population_ratio == old(self)@.population_ratio,
            final(self)@.applicable_issues == old(self)@.applicable_issues,
            final(self)@.subgroups.len() == old(self)@.subgroups.len(),
            forall|i: int|
                0 <= i < old(self)@.subgroups.len() ==> #[trigger] final(self)@.subgroups[i].name
                    == old(self)@.subgroups[i].name && final(self)@.subgroups[i].mood == old(
                    self,
                )@.subgroups[i].mood,
            sum_ratios(old(self)@.subgroups) <= 0 ==> final(self)@.subgroups == old(
                self,
            )@.subgroups,
            sum_ratios(old(self)@.subgroups) > 0 ==> forall|i: int|
                0 <= i < old(self)@.subgroups.len() ==> #[trigger] final(self)@.subgroups[i].ratio
                    == clip_ratio(
                    div_trunc(
                        old(self)@.subgroups[i].ratio * (SCALE as int),
                        sum_ratios(old(self)@.subgroups),
                    ),
                ),
            final(self)@.wf(),
    {
        let n: usize = self.subgroups.len();
        let mut total: i128 = 0;
        let mut i: usize = 0;
        while i < n
            invariant
                0 <= i <= n,
                n == self.subgroups@.len(),
                self@.wf(),
                total == sum_ratios(self@.subgroups.take(i as int)),
                -(i * (RATIO_LIMIT as int)) <= total <= i * (RATIO_LIMIT as int),
            decreases n - i,
        {
            proof {
                assert(self@.subgroups.take(i as int + 1).drop_last() =~= self@.subgroups.take(
                    i as int,
                ));
                assert(self@.subgroups.take(i as int + 1).last() == self@.subgroups[i as int]);
                assert(self@.subgroups[i as int].wf());
            }
            total = total + (self.subgroups[i].ratio as i128);
            i = i + 1;
        }
        proof {
            assert(self@.subgroups.take(n as int) =~= self@.subgroups);
        }
        if total <= 0 {
            return ;
        }
        let mut i: usize = 0;
        while i < n
            invariant
                0 <= i <= n,
                n == self.subgroups@.len(),
                n == old(self)@.subgroups.len(),
                self@.name == old(self)@.name,
                self@.population_ratio == old(self)@.population_ratio,
                self@.applicable_issues == old(self)@.applicable_issues,
                old(self)@.wf(),
                total == sum_ratios(old(self)@.subgroups),
                0 < total,
                forall|j: int|
                    i <= j < n ==> #[trigger] self@.subgroups[j] == old(self)@.subgroups[j],
                forall|j: int|
                    0 <= j < i ==> #[trigger] self@.subgroups[j] == (SubgroupV {
                        ratio: clip_ratio(
                            div_trunc(old(self)@.subgroups[j].ratio * (SCALE as int), total as int),
                        ),
                        ..old(self)@.subgroups[j]
                    }),
                self@.wf(),
            decreases n - i,
        {
            proof {
                assert(self@.subgroups[i as int] == old(self)@.subgroups[i as int]);
                assert(self@.subgroups[i as int].wf());
            }
            let ghost pre_vec = self.subgroups@;
            let num: i128 = (self.subgroups[i].ratio as i128) * (SCALE as i128);
            let q: i128 = div_trunc_i128(num, total);
            let clipped: i64 = if q > RATIO_LIMIT as i128 {
                RATIO_LIMIT
            } else if q < -(RATIO_LIMIT as i128) {
                -RATIO_LIMIT
            } else {
                q as i64
            };
            proof {
                assert(clipped as int == clip_ratio(
                    div_trunc(old(self)@.subgroups[i as int].ratio * (SCALE as int), total as int),
                ));
            }
            self.subgroups[i].set_ratio(clipped);
            proof {
                let iv = i as int;
                assert(self.subgroups@ == pre_vec.update(iv, self.subgroups@[iv]));
                assert(self.subgroups@[iv]@ == (SubgroupV {
                    ratio: clipped as int,
                    ..old(self)@.subgroups[iv]
                }));
                assert forall|j: int| iv + 1 <= j < n implies #[trigger] self@.subgroups[j] == old(
                    self,
                )@.subgroups[j] by {
                    assert(self.subgroups@[j] == pre_vec[j]);
                    assert(self@.subgroups[j] == pre_vec[j]@);
                    assert(subgroups_view(pre_vec)[j] == pre_vec[j]@);
                }
                assert forall|j: int| 0 <= j <= iv implies #[trigger] self@.subgroups[j] == (
                SubgroupV {
                    ratio: clip_ratio(
                        div_trunc(old(self)@.subgroups[j].ratio * (SCALE as int), total as int),
                    ),
                    ..old(self)@.subgroups[j]
                }) by {
                    if j == iv {
                        assert(self@.subgroups[j] == self.subgroups@[j]@);
                    } else {
                        assert(self.subgroups@[j] == pre_vec[j]);
                        assert(self@.subgroups[j] == pre_vec[j]@);
                        assert(subgroups_view(pre_vec)[j] == pre_vec[j]@);
                    }
                }
            }
            i = i + 1;
        }
    }

    /// Records the issue's name (set semantics: at most once), then adds the
    /// issue's delta to every subgroup whose name is a key of the effect
    /// table. Subgroups not named in the table are unaffected.
    pub fn apply_issue(&mut self, issue: &Issue)
        requires
            old(self)@.wf(),
        ensures
            final(self)@ == apply_issue_g(old(self)@, issue@),
            final(self)@.wf(),
    {
        let issue_name: &String = issue.get_name();
        let n_rec: usize = self.applicable_issues.len();
        let mut found: bool = false;
        let mut i: usize = 0;
        while i < n_rec
            invariant
                0 <= i <= n_rec,
                n_rec == self.applicable_issues@.len(),
                issue_name@ == issue@.name,
                self == old(self),
                found <==> exists|j: int|
                    0 <= j < i && #[trigger] self@.applicable_issues[j] == issue@.name,
            decreases n_rec - i,
        {
            let is_match: bool = self.applicable_issues[i] == *issue_name;
            proof {
                assert(is_match == (self@.applicable_issues[i as int] == issue@.name));
            }
            if is_match {
                found = true;
            }
            i = i + 1;
        }
        proof {
            assert(found <==> self@.applicable_issues.contains(issue@.name));
        }
        if !found {
            self.applicable_issues.push(issue_name.clone());
            proof {
                assert(self@.applicable_issues =~= old(self)@.applicable_issues.push(issue@.name));
            }
        }
        proof {
            assert(self@.applicable_issues == record_issue(
                old(self)@.applicable_issues,
                issue@.name,
            ));
        }
        let n: usize = self.subgroups.len();
        let mut i: usize = 0;
        while i < n
            invariant
                0 <= i <= n,
                n == self.subgroups@.len(),
                n == old(self)@.subgroups.len(),
                old(self)@.wf(),
                issue_name@ == issue@.name,
                self@.name == old(self)@.name,
                self@.population_ratio == old(self)@.population_ratio,
                self@.applicable_issues == record_issue(old(self)@.applicable_issues, issue@.name),
                forall|j: int|
                    i <= j < n ==> #[trigger] self@.subgroups[j] == old(self)@.subgroups[j],
                forall|j: int|
                    0 <= j < i ==> #[trigger] self@.subgroups[j] == apply_issue_sg(
                        old(self)@.subgroups[j],
                        issue@,
                    ),
            decreases n - i,
        {
            let ghost iv = i as int;
            let ghost pre_vec = self.subgroups@;
            proof {
                assert(self@.subgroups[iv] == old(self)@.subgroups[iv]);
                assert(old(self)@.subgroups[iv].wf());
                assert(self@.subgroups[iv] == pre_vec[iv]@);
            }
            match issue.get_subgroup_effects(&self.subgroups[i].name) {
                Some(d) => {
                    self.subgroups[i].apply_effect(d);
                    proof {
                        assert(self.subgroups@ == pre_vec.update(iv, self.subgroups@[iv]));
                    }
                },
                None => {
                    proof {
                        assert(apply_issue_sg(old(self)@.subgroups[iv], issue@)
                            == old(self)@.subgroups[iv]);
                    }
                },
            }
            proof {
                assert forall|j: int| iv + 1 <= j < n implies #[trigger] self@.subgroups[j] == old(
                    self,
                )@.subgroups[j] by {
                    assert(self.subgroups@[j] == pre_vec[j]);
                    assert(self@.subgroups[j] == pre_vec[j]@);
                    assert(subgroups_view(pre_vec)[j] == pre_vec[j]@);
                }
                assert forall|j: int| 0 <= j <= iv implies #[trigger] self@.subgroups[j]
                    == apply_issue_sg(old(self)@.subgroups[j], issue@) by {
                    if j == iv {
                        assert(self@.subgroups[j] == self.subgroups@[j]@);
                    } else {
                        assert(self.subgroups@[j] == pre_vec[j]);
                        assert(self@.subgroups[j] == pre_vec[j]@);
                        assert(subgroups_view(pre_vec)[j] == pre_vec[j]@);
                    }
                }
            }
            i = i + 1;
        }
        proof {
            assert(self@.subgroups =~= apply_issue_g(old(self)@, issue@).subgroups);
            assert(self@ == apply_issue_g(old(self)@, issue@));
        }
    }
}

} // verus!
