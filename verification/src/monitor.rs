//! The monitor's aggregate view of a node list: how many nodes count as
//! healthy, degraded and unreachable. Unlike the daemon's summary, every
//! status other than `Degraded` and `Unreachable` counts as healthy here.
//! Also the changes in health between two scrapes: which nodes became
//! degraded and which recovered.
use vstd::prelude::*;

use crate::text::{chars_equal_str, chars_of, string_views};
use crate::types::NodeStatus;

verus! {

/// Node counts by health.
#[derive(Debug, Clone, Copy, PartialEq, Eq)]
pub struct StatusTally {
    pub healthy: u64,
    pub degraded: u64,
    pub unreachable: u64,
}

/// How many of `s` satisfy `p`.
pub open spec fn count_status(s: Seq<NodeStatus>, p: spec_fn(NodeStatus) -> bool) -> nat
    decreases s.len(),
{
    if s.len() == 0 {
        0
    } else {
        count_status(s.drop_last(), p) + if p(s.last()) { 1nat } else { 0nat }
    }
}

pub open spec fn is_unreachable(s: NodeStatus) -> bool {
    s == NodeStatus::Unreachable
}

pub open spec fn is_degraded(s: NodeStatus) -> bool {
    s == NodeStatus::Degraded
}

pub open spec fn counts_as_up(s: NodeStatus) -> bool {
    s != NodeStatus::Unreachable && s != NodeStatus::Degraded
}

proof fn lemma_count_bounded(s: Seq<NodeStatus>, p: spec_fn(NodeStatus) -> bool)
    ensures
        count_status(s, p) <= s.len(),
    decreases s.len(),
{
    if s.len() > 0 {
        lemma_count_bounded(s.drop_last(), p);
    }
}

/// Tally the statuses of a node list.
pub fn tally(statuses: &Vec<NodeStatus>) -> (t: StatusTally)
    ensures
        t.healthy == count_status(statuses@, |s: NodeStatus| counts_as_up(s)),
        t.degraded == count_status(statuses@, |s: NodeStatus| is_degraded(s)),
        t.unreachable == count_status(statuses@, |s: NodeStatus| is_unreachable(s)),
{
    let ghost pu = |s: NodeStatus| counts_as_up(s);
    let ghost pd = |s: NodeStatus| is_degraded(s);
    let ghost pr = |s: NodeStatus| is_unreachable(s);
    let mut t = StatusTally { healthy: 0, degraded: 0, unreachable: 0 };
    let mut i: usize = 0;
    while i < statuses.len()
        invariant
            i <= statuses@.len(),
            pu == (|s: NodeStatus| counts_as_up(s)),
            pd == (|s: NodeStatus| is_degraded(s)),
            pr == (|s: NodeStatus| is_unreachable(s)),
            t.healthy == count_status(statuses@.take(i as int), pu),
            t.degraded == count_status(statuses@.take(i as int), pd),
            t.unreachable == count_status(statuses@.take(i as int), pr),
        decreases statuses@.len() - i,
    {
        proof {
            let a = statuses@.take(i as int);
            let b = statuses@.take(i + 1);
            assert(b.drop_last() =~= a);
            assert(b.last() == statuses@[i as int]);
            lemma_count_bounded(a, pu);
            lemma_count_bounded(a, pd);
            lemma_count_bounded(a, pr);
        }
        match statuses[i] {
            NodeStatus::Unreachable => t.unreachable = t.unreachable + 1,
            NodeStatus::Degraded => t.degraded = t.degraded + 1,
            _ => t.healthy = t.healthy + 1,
        }
        i = i + 1;
    }
    proof {
        assert(statuses@.take(statuses@.len() as int) =~= statuses@);
    }
    t
}

/// Every node is counted exactly once.
pub proof fn law_tally_partitions(s: Seq<NodeStatus>)
    ensures
        count_status(s, |x: NodeStatus| counts_as_up(x)) + count_status(s, |x: NodeStatus| is_degraded(x))
            + count_status(s, |x: NodeStatus| is_unreachable(x)) == s.len(),
    decreases s.len(),
{
    if s.len() > 0 {
        law_tally_partitions(s.drop_last());
    }
}

proof fn lemma_filter_none(s: Seq<Seq<char>>, p: spec_fn(Seq<char>) -> bool)
    requires
        forall|i: int| 0 <= i < s.len() ==> !p(#[trigger] s[i]),
    ensures
        s.filter(p).len() == 0,
    decreases s.len(),
{
    reveal(Seq::filter);
    if s.len() > 0 {
        let d = s.drop_last();
        assert forall|i: int| 0 <= i < d.len() implies !p(#[trigger] d[i]) by {
            assert(d[i] == s[i]);
        }
        lemma_filter_none(d, p);
        assert(!p(s[s.len() - 1]));
    }
}

/// Health changes are logged once: when the degraded nodes are the same as
/// at the last good scrape, no node is newly degraded and none recovered.
pub proof fn law_steady_health_is_quiet(s: Seq<Seq<char>>)
    ensures
        s.filter(|id: Seq<char>| !s.contains(id)).len() == 0,
        s.to_set().difference(s.to_set()).is_empty(),
{
    let p = |id: Seq<char>| !s.contains(id);
    assert forall|i: int| 0 <= i < s.len() implies !p(#[trigger] s[i]) by {
        assert(s.contains(s[i]));
    }
    lemma_filter_none(s, p);
    assert(s.to_set().difference(s.to_set()) =~= Set::empty());
}

/// Whether `v` holds the text `s`.
pub fn contains_str(v: &Vec<String>, s: &str) -> (b: bool)
    ensures
        b == string_views(v@).contains(s@),
{
    let mut i: usize = 0;
    while i < v.len()
        invariant
            i <= v@.len(),
            forall|j: int| 0 <= j < i ==> (#[trigger] v@[j])@ != s@,
        decreases v@.len() - i,
    {
        let c = chars_of(v[i].as_str());
        if chars_equal_str(&c, s) {
            proof {
                assert(string_views(v@)[i as int] == s@);
            }
            return true;
        }
        i = i + 1;
    }
    proof {
        if string_views(v@).contains(s@) {
            let j = choose|j: int| 0 <= j < string_views(v@).len() && string_views(v@)[j] == s@;
            assert(v@[j]@ == s@);
        }
    }
    false
}

/// Nodes that became degraded since the last good scrape (in input order),
/// and nodes that were degraded then and are not now.
pub fn health_transitions(previously: &Vec<String>, degraded_now: &Vec<String>) -> (t: (Vec<String>, Vec<String>))
    ensures
        string_views(t.0@) == string_views(degraded_now@).filter(|id: Seq<char>| !string_views(previously@).contains(id)),
        string_views(t.1@).to_set() == string_views(previously@).to_set().difference(string_views(degraded_now@).to_set()),
        string_views(t.1@).no_duplicates(),
{
    let ghost prev = string_views(previously@);
    let ghost now = string_views(degraded_now@);
    let ghost fresh = |id: Seq<char>| !prev.contains(id);
    let mut newly: Vec<String> = Vec::new();
    let mut i: usize = 0;
    while i < degraded_now.len()
        invariant
            i <= degraded_now@.len(),
            prev == string_views(previously@),
            now == string_views(degraded_now@),
            fresh == (|id: Seq<char>| !prev.contains(id)),
            string_views(newly@) == now.take(i as int).filter(fresh),
        decreases degraded_now@.len() - i,
    {
        proof {
            let b = now.take(i + 1);
            assert(b.drop_last() =~= now.take(i as int));
            assert(b.last() == now[i as int]);
            assert(now[i as int] == degraded_now@[i as int]@);
        }
        let ghost before = string_views(newly@);
        if !contains_str(previously, degraded_now[i].as_str()) {
            newly.push(degraded_now[i].clone());
            proof {
                assert(fresh(now[i as int]));
                assert(string_views(newly@) =~= before.push(now[i as int]));
            }
        } else {
            proof {
                assert(!fresh(now[i as int]));
            }
        }
        proof {
            reveal(Seq::filter);
            let b = now.take(i + 1);
            assert(b.len() > 0);
            assert(b.filter(fresh) == (if fresh(b.last()) {
                b.drop_last().filter(fresh).push(b.last())
            } else {
                b.drop_last().filter(fresh)
            }));
        }
        i = i + 1;
    }
    proof {
        assert(now.take(now.len() as int) =~= now);
    }
    let mut recovered: Vec<String> = Vec::new();
    let mut k: usize = 0;
    while k < previously.len()
        invariant
            k <= previously@.len(),
            prev == string_views(previously@),
            now == string_views(degraded_now@),
            string_views(recovered@).no_duplicates(),
            string_views(recovered@).to_set() == prev.take(k as int).to_set().difference(now.to_set()),
        decreases previously@.len() - k,
    {
        let id = previously[k].as_str();
        let ghost x = prev[k as int];
        proof {
            assert(prev.take(k + 1) =~= prev.take(k as int).push(x));
            prev.take(k as int).lemma_push_to_set_commute(x);
        }
        if !contains_str(degraded_now, id) && !contains_str(&recovered, id) {
            let ghost before = string_views(recovered@);
            recovered.push(previously[k].clone());
            proof {
                assert(string_views(recovered@) =~= before.push(x));
                before.lemma_push_to_set_commute(x);
                assert forall|a: int, b: int| 0 <= a < b < string_views(recovered@).len() implies string_views(
                    recovered@,
                )[a] != string_views(recovered@)[b] by {
                    if b == before.len() {
                        assert(before.contains(before[a]));
                    }
                }
                assert(string_views(recovered@).to_set() =~= prev.take(k + 1).to_set().difference(
                    now.to_set(),
                ));
            }
        } else {
            proof {
                if now.contains(x) {
                    assert(now.to_set().contains(x));
                } else {
                    assert(string_views(recovered@).contains(x));
                    assert(string_views(recovered@).to_set().contains(x));
                }
                assert(string_views(recovered@).to_set() =~= prev.take(k + 1).to_set().difference(
                    now.to_set(),
                ));
            }
        }
        k = k + 1;
    }
    proof {
        assert(prev.take(prev.len() as int) =~= prev);
    }
    (newly, recovered)
}

} // verus!
