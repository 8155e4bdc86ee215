//! The whole society: every interest group and every standing issue, the
//! per-turn issue application, and the global mood aggregate.

use vstd::prelude::*;

use crate::interest_group::{
    InterestGroup, InterestGroupV, apply_issue_g, lemma_wsum_bound, wsum,
};
use crate::issue::{Issue, IssueV};
use crate::num::{MAX_GROUPS, MAX_SUBGROUPS, MOOD_LIMIT, RATIO_LIMIT};

verus! {

/// Mathematical image of a `Society`.
pub struct SocietyV {
    pub groups: Seq<InterestGroupV>,
    pub issues: Seq<IssueV>,
}

/// One group's contribution to the overall mood: population ratio times
/// weighted mood.
pub open spec fn pwm(g: InterestGroupV) -> int {
    g.population_ratio * wsum(g.subgroups)
}

/// The overall mood: the sum of every group's contribution. Overlapping
/// population ratios are deliberately not corrected for.
pub open spec fn total_mood(gs: Seq<InterestGroupV>) -> int
    decreases gs.len(),
{
    if gs.len() == 0 {
        0
    } else {
        total_mood(gs.drop_last()) + pwm(gs.last())
    }
}

/// Every group whose name equals the recipient name has the issue applied;
/// the others stand as they are.
pub open spec fn apply_to_matching(
    gs: Seq<InterestGroupV>,
    issue: IssueV,
    recipient: Seq<char>,
) -> Seq<InterestGroupV> {
    Seq::new(
        gs.len(),
        |i: int|
            if gs[i].name == recipient {
                apply_issue_g(gs[i], issue)
            } else {
                gs[i]
            },
    )
}

/// One issue applied: its recipient names visited in list order, each
/// matching every group by exact name.
pub open spec fn apply_to_recipients(
    gs: Seq<InterestGroupV>,
    issue: IssueV,
    recipients: Seq<Seq<char>>,
) -> Seq<InterestGroupV>
    decreases recipients.len(),
{
    if recipients.len() == 0 {
        gs
    } else {
        apply_to_recipients(
            apply_to_matching(gs, issue, recipients[0]),
            issue,
            recipients.drop_first(),
        )
    }
}

/// All issues applied in list order.
pub open spec fn apply_all_issues(gs: Seq<InterestGroupV>, issues: Seq<IssueV>) -> Seq<
    InterestGroupV,
>
    decreases issues.len(),
{
    if issues.len() == 0 {
        gs
    } else {
        apply_all_issues(
            apply_to_recipients(gs, issues[0], issues[0].recipients),
            issues.drop_first(),
        )
    }
}

/// Removing one group splits the overall mood into the rest plus that
/// group's contribution.
pub proof fn lemma_total_mood_remove(s: Seq<InterestGroupV>, i: int)
    requires
        0 <= i < s.len(),
    ensures
        total_mood(s) == total_mood(s.remove(i)) + pwm(s[i]),
    decreases s.len(),
{
    if i == s.len() - 1 {
        assert(s.remove(i) =~= s.drop_last());
    } else {
        assert(s.remove(i).drop_last() =~= s.drop_last().remove(i));
        assert(s.remove(i).last() == s.last());
        lemma_total_mood_remove(s.drop_last(), i);
        assert(s.drop_last()[i] == s[i]);
    }
}

/// The overall mood is a commutative sum: any reordering of the groups
/// yields the same value.
pub proof fn lemma_total_mood_permutation(gs1: Seq<InterestGroupV>, gs2: Seq<InterestGroupV>)
    requires
        gs1.to_multiset() == gs2.to_multiset(),
    ensures
        total_mood(gs1) == total_mood(gs2),
    decreases gs1.len(),
{
    broadcast use vstd::seq_lib::group_to_multiset_ensures;

    if gs1.len() == 0 {
        assert(gs1.to_multiset().len() == gs1.len());
        assert(gs2.to_multiset().len() == gs2.len());
        assert(gs2.len() == 0);
    } else {
        let x = gs1.last();
        let i1 = gs1.len() - 1;
        assert(gs1.contains(x));
        assert(gs2.to_multiset().count(x) > 0);
        assert(gs2.contains(x));
        let j = choose|j: int| 0 <= j < gs2.len() && gs2[j] == x;
        lemma_total_mood_remove(gs1, i1);
        lemma_total_mood_remove(gs2, j);
        assert(gs1.remove(i1) =~= gs1.drop_last());
        assert(gs1.remove(i1).to_multiset() =~= gs1.to_multiset().remove(x));
        assert(gs2.remove(j).to_multiset() =~= gs2.to_multiset().remove(x));
        assert(gs1.drop_last().to_multiset() == gs2.remove(j).to_multiset());
        lemma_total_mood_permutation(gs1.drop_last(), gs2.remove(j));
    }
}

impl SocietyV {
    /// What every stored society keeps: a bounded number of well-formed
    /// groups.
    pub open spec fn wf(self) -> bool {
        &&& self.groups.len() <= MAX_GROUPS
        &&& forall|i: int| 0 <= i < self.groups.len() ==> (#[trigger] self.groups[i]).wf()
    }
}

/// The society: interest groups and issues, both in construction order.
pub struct Society {
    pub interest_groups: Vec<InterestGroup>,
    pub issues: Vec<Issue>,
}

/// Image of a vector of interest groups.
pub open spec fn groups_view(s: Seq<InterestGroup>) -> Seq<InterestGroupV> {
    Seq::new(s.len(), |i: int| s[i]@)
}

/// Image of a vector of issues.
pub open spec fn issues_view(s: Seq<Issue>) -> Seq<IssueV> {
    Seq::new(s.len(), |i: int| s[i]@)
}

impl View for Society {
    type V = SocietyV;

    open spec fn view(&self) -> SocietyV {
        SocietyV { groups: groups_view(self.interest_groups@), issues: issues_view(self.issues@) }
    }
}

impl Society {
    /// Stores the given groups and issues verbatim, in order.
    pub fn new(interest_groups: Vec<InterestGroup>, issues: Vec<Issue>) -> (r: Society)
        requires
            interest_groups@.len() <= MAX_GROUPS,
            forall|i: int|
                0 <= i < interest_groups@.len() ==> (#[trigger] interest_groups@[i])@.wf(),
        ensures
            r@.groups == groups_view(interest_groups@),
            r@.issues == issues_view(issues@),
            r@.wf(),
    {
        Society { interest_groups, issues }
    }

    /// The overall mood of the society: the exact sum over its groups of
    /// population ratio times weighted mood, in cubed fixed-point units.
    pub fn overall_mood(&self) -> (r: i128)
        requires
            self@.wf(),
        ensures
            r == total_mood(self@.groups),
    {
        let n: usize = self.interest_groups.len();
        let mut acc: i128 = 0;
        let mut i: usize = 0;
        while i < n
            invariant
                self@.wf(),
                0 <= i <= n,
                n == self.interest_groups@.len(),
                n <= MAX_GROUPS,
                acc == total_mood(self@.groups.take(i as int)),
                -(i as int * 100_000_000_000_000_000_000_000_000_000_000) <= acc <= i as int
                    * 100_000_000_000_000_000_000_000_000_000_000,
            decreases n - i,
        {
            proof {
                assert(self@.groups[i as int] == self.interest_groups@[i as int]@);
                assert(self@.groups[i as int].wf());
                lemma_wsum_bound(self@.groups[i as int].subgroups);
                let g = self@.groups[i as int];
                assert(-100_000_000_000_000_000_000_000_000_000_000 <= pwm(g)
                    <= 100_000_000_000_000_000_000_000_000_000_000) by (nonlinear_arith)
                    requires
                        -(RATIO_LIMIT as int) <= g.population_ratio <= RATIO_LIMIT as int,
                        -(g.subgroups.len() * (RATIO_LIMIT as int) * (MOOD_LIMIT as int)) <= wsum(
                            g.subgroups,
                        ) <= g.subgroups.len() * (RATIO_LIMIT as int) * (MOOD_LIMIT as int),
                        g.subgroups.len() <= MAX_SUBGROUPS,
                        pwm(g) == g.population_ratio * wsum(g.subgroups),
                ;
                assert(self@.groups.take(i as int + 1).drop_last() =~= self@.groups.take(i as int));
                assert(self@.groups.take(i as int + 1).last() == self@.groups[i as int]);
            }
            let contribution: i128 = self.interest_groups[i].population_weighted_mood();
            acc = acc + contribution;
            i = i + 1;
        }
        proof {
            assert(self@.groups.take(n as int) =~= self@.groups);
        }
        acc
    }

    /// Applies every standing issue once, in list order: for each issue,
    /// each recipient name in list order is matched against every group by
    /// exact name, and each match has the issue applied. Nothing happens on
    /// zero matches; duplicate group names are each applied to, once per
    /// match.
    pub fn apply_issues(&mut self)
        requires
            old(self)@.wf(),
        ensures
            final(self)@.issues == old(self)@.issues,
            final(self)@.groups == apply_all_issues(old(self)@.groups, old(self)@.issues),
            final(self)@.wf(),
    {
        let n_issues: usize = self.issues.len();
        let mut k: usize = 0;
        proof {
            assert(self@.issues.skip(0) =~= self@.issues);
        }
        while k < n_issues
            invariant
                0 <= k <= n_issues,
                n_issues == self.issues@.len(),
                self@.issues == old(self)@.issues,
                self@.wf(),
                apply_all_issues(old(self)@.groups, old(self)@.issues) == apply_all_issues(
                    self@.groups,
                    self@.issues.skip(k as int),
                ),
            decreases n_issues - k,
        {
            let ghost groups_mid = self@.groups;
            let ghost issue_v = self@.issues[k as int];
            proof {
                assert(self@.issues.skip(k as int)[0] == issue_v);
                assert(self@.issues.skip(k as int).drop_first() =~= self@.issues.skip(k as int + 1));
            }
            let recipients: &Vec<String> = self.issues[k].get_effect_recipients();
            let n_rec: usize = recipients.len();
            let mut j: usize = 0;
            proof {
                assert(issue_v.recipients.skip(0) =~= issue_v.recipients);
            }
            while j < n_rec
                invariant
                    0 <= j <= n_rec,
                    n_rec == recipients@.len(),
                    n_rec == issue_v.recipients.len(),
                    forall|m: int|
                        0 <= m < n_rec ==> #[trigger] recipients@[m]@ == issue_v.recipients[m],
                    self@.issues == old(self)@.issues,
                    self@.wf(),
                    issue_v == self@.issues[k as int],
                    0 <= k < n_issues,
                    n_issues == self.issues@.len(),
                    apply_to_recipients(groups_mid, issue_v, issue_v.recipients)
                        == apply_to_recipients(
                        self@.groups,
                        issue_v,
                        issue_v.recipients.skip(j as int),
                    ),
                decreases n_rec - j,
            {
                let ghost groups_inner = self@.groups;
                let ghost rec_v = issue_v.recipients[j as int];
                proof {
                    assert(issue_v.recipients.skip(j as int)[0] == rec_v);
                    assert(issue_v.recipients.skip(j as int).drop_first() =~= issue_v.recipients.skip(
                        j as int + 1,
                    ));
                }
                let n_groups: usize = self.interest_groups.len();
                let mut g: usize = 0;
                while g < n_groups
                    invariant
                        0 <= g <= n_groups,
                        n_groups == self.interest_groups@.len(),
                        n_groups == groups_inner.len(),
                        self@.issues == old(self)@.issues,
                        self@.wf(),
                        0 <= k < n_issues,
                        n_issues == self.issues@.len(),
                        issue_v == self@.issues[k as int],
                        0 <= j < n_rec,
                        n_rec == recipients@.len(),
                        recipients@[j as int]@ == rec_v,
                        forall|m: int|
                            g <= m < n_groups ==> #[trigger] self@.groups[m] == groups_inner[m],
                        forall|m: int|
                            0 <= m < g ==> #[trigger] self@.groups[m] == (
                            if groups_inner[m].name == rec_v {
                                apply_issue_g(groups_inner[m], issue_v)
                            } else {
                                groups_inner[m]
                            }),
                    decreases n_groups - g,
                {
                    let ghost gv = g as int;
                    let ghost pre_vec = self.interest_groups@;
                    proof {
                        assert(self@.groups[gv] == pre_vec[gv]@);
                        assert(self@.groups[gv].wf());
                    }
                    let is_match: bool = {
                        let rec_ref: &String = &recipients[j];
                        self.interest_groups[g].name == *rec_ref
                    };
                    proof {
                        assert(is_match == (groups_inner[gv].name == rec_v)) by {
                            assert(self.interest_groups@[gv]@ == groups_inner[gv]);
                        }
                    }
                    if is_match {
                        proof {
                            assert(issues_view(self.issues@)[k as int] == self.issues@[k as int]@);
                            assert(self.issues@[k as int]@ == issue_v);
                            assert(self.interest_groups@[gv]@ == groups_inner[gv]);
                        }
                        self.interest_groups[g].apply_issue(&self.issues[k]);
                        proof {
                            assert(self.interest_groups@ == pre_vec.update(
                                gv,
                                self.interest_groups@[gv],
                            ));
                            assert(self.interest_groups@[gv]@ == apply_issue_g(
                                groups_inner[gv],
                                issue_v,
                            ));
                        }
                    }
                    proof {
                        assert forall|m: int| gv + 1 <= m < n_groups implies #[trigger] self@.groups[m]
                            == groups_inner[m] by {
                            assert(self.interest_groups@[m] == pre_vec[m]);
                            assert(self@.groups[m] == pre_vec[m]@);
                            assert(groups_view(pre_vec)[m] == pre_vec[m]@);
                        }
                        assert forall|m: int| 0 <= m <= gv implies #[trigger] self@.groups[m] == (
                        if groups_inner[m].name == rec_v {
                            apply_issue_g(groups_inner[m], issue_v)
                        } else {
                            groups_inner[m]
                        }) by {
                            if m == gv {
                                assert(self@.groups[m] == self.interest_groups@[m]@);
                            } else {
                                assert(self.interest_groups@[m] == pre_vec[m]);
                                assert(self@.groups[m] == pre_vec[m]@);
                                assert(groups_view(pre_vec)[m] == pre_vec[m]@);
                            }
                        }
                        assert forall|m: int| 0 <= m < n_groups implies (
                        #[trigger] self@.groups[m]).wf() by {
                            if m == gv && is_match {
                                assert(self@.groups[m] == self.interest_groups@[m]@);
                            } else {
                                assert(self.interest_groups@[m] == pre_vec[m]);
                                assert(self@.groups[m] == pre_vec[m]@);
                                assert(groups_view(pre_vec)[m] == pre_vec[m]@);
                            }
                        }
                    }
                    g = g + 1;
                }
                proof {
                    assert(self@.groups =~= apply_to_matching(groups_inner, issue_v, rec_v));
                }
                j = j + 1;
            }
            proof {
                assert(issue_v.recipients.skip(n_rec as int) =~= Seq::<Seq<char>>::empty());
            }
            k = k + 1;
        }
        proof {
            assert(self@.issues.skip(n_issues as int) =~= Seq::<IssueV>::empty());
        }
    }
}

} // verus!
