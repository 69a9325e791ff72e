//! The command-outcome audit log as the daemon serves it: most recently
//! completed first, outcomes that completed at the same second keeping the
//! order the log holds them in.
use vstd::prelude::*;

use crate::types::CommandOutcome;

verus! {

/// Where an outcome completed at `t` goes in a log that is already ordered
/// most recent first: before the first entry that completed earlier, after
/// all others.
pub open spec fn first_older(s: Seq<CommandOutcome>, t: u64) -> int
    decreases s.len(),
{
    if s.len() == 0 {
        0
    } else if s[0].completed_at_unix < t {
        0
    } else {
        1 + first_older(s.drop_first(), t)
    }
}

/// `s` with `x` put in its place.
pub open spec fn insert_recent(s: Seq<CommandOutcome>, x: CommandOutcome) -> Seq<CommandOutcome> {
    s.insert(first_older(s, x.completed_at_unix), x)
}

/// The log `s` ordered most recent first, ties kept in their order in `s`.
pub open spec fn recent_first(s: Seq<CommandOutcome>) -> Seq<CommandOutcome>
    decreases s.len(),
{
    if s.len() == 0 {
        Seq::empty()
    } else {
        insert_recent(recent_first(s.drop_last()), s.last())
    }
}

/// Ordered most recent first.
pub open spec fn is_recent_first(s: Seq<CommandOutcome>) -> bool {
    forall|i: int, j: int| 0 <= i < j < s.len() ==> (#[trigger] s[i]).completed_at_unix >= (
    #[trigger] s[j]).completed_at_unix
}

proof fn lemma_first_older_bounds(s: Seq<CommandOutcome>, t: u64)
    ensures
        0 <= first_older(s, t) <= s.len(),
        forall|k: int| 0 <= k < first_older(s, t) ==> (#[trigger] s[k]).completed_at_unix >= t,
        first_older(s, t) < s.len() ==> s[first_older(s, t)].completed_at_unix < t,
    decreases s.len(),
{
    if s.len() > 0 && s[0].completed_at_unix >= t {
        let d = s.drop_first();
        lemma_first_older_bounds(d, t);
        assert forall|k: int| 0 <= k < first_older(s, t) implies (#[trigger] s[k]).completed_at_unix >= t by {
            if k > 0 {
                assert(s[k] == d[k - 1]);
            }
        }
        if first_older(s, t) < s.len() {
            assert(s[first_older(s, t)] == d[first_older(d, t)]);
        }
    }
}

proof fn lemma_first_older_is(s: Seq<CommandOutcome>, t: u64, j: int)
    requires
        0 <= j <= s.len(),
        forall|k: int| 0 <= k < j ==> (#[trigger] s[k]).completed_at_unix >= t,
        j < s.len() ==> s[j].completed_at_unix < t,
    ensures
        first_older(s, t) == j,
    decreases j,
{
    if j > 0 {
        let d = s.drop_first();
        assert forall|k: int| 0 <= k < j - 1 implies (#[trigger] d[k]).completed_at_unix >= t by {
            assert(d[k] == s[k + 1]);
        }
        if j - 1 < d.len() {
            assert(d[j - 1] == s[j]);
        }
        lemma_first_older_is(d, t, j - 1);
    }
}

proof fn lemma_insert_recent_sorted(s: Seq<CommandOutcome>, x: CommandOutcome)
    requires
        is_recent_first(s),
    ensures
        is_recent_first(insert_recent(s, x)),
        insert_recent(s, x).to_multiset() == s.to_multiset().insert(x),
{
    let j = first_older(s, x.completed_at_unix);
    lemma_first_older_bounds(s, x.completed_at_unix);
    let r = insert_recent(s, x);
    assert forall|a: int, b: int| 0 <= a < b < r.len() implies (#[trigger] r[a]).completed_at_unix >= (
    #[trigger] r[b]).completed_at_unix by {
        if a < j && b < j {
            assert(r[a] == s[a] && r[b] == s[b]);
        } else if a < j && b == j {
            assert(r[a] == s[a]);
        } else if a < j {
            assert(r[a] == s[a] && r[b] == s[b - 1]);
        } else if a == j {
            assert(r[b] == s[b - 1]);
            assert(s[j].completed_at_unix < x.completed_at_unix);
            if b - 1 > j {
                assert(s[j].completed_at_unix >= s[b - 1].completed_at_unix);
            }
        } else {
            assert(r[a] == s[a - 1] && r[b] == s[b - 1]);
        }
    }
    vstd::seq_lib::to_multiset_insert(s, j, x);
}

/// The log ordered most recent first is in that order and holds the same
/// outcomes.
pub proof fn law_recent_first_sorts(s: Seq<CommandOutcome>)
    ensures
        is_recent_first(recent_first(s)),
        recent_first(s).to_multiset() == s.to_multiset(),
    decreases s.len(),
{
    if s.len() > 0 {
        law_recent_first_sorts(s.drop_last());
        lemma_insert_recent_sorted(recent_first(s.drop_last()), s.last());
        vstd::seq_lib::to_multiset_build(s.drop_last(), s.last());
        assert(s.drop_last().push(s.last()) =~= s);
    } else {
        assert(s =~= Seq::<CommandOutcome>::empty());
        s.to_multiset_ensures();
        recent_first(s).to_multiset_ensures();
        assert(recent_first(s).to_multiset() =~= s.to_multiset());
    }
}

/// The outcomes of `s` that completed at second `t`, in their order in `s`.
pub open spec fn completed_at(s: Seq<CommandOutcome>, t: u64) -> Seq<CommandOutcome>
    decreases s.len(),
{
    if s.len() == 0 {
        Seq::empty()
    } else {
        let r = completed_at(s.drop_last(), t);
        if s.last().completed_at_unix == t {
            r.push(s.last())
        } else {
            r
        }
    }
}

proof fn lemma_completed_at_append(a: Seq<CommandOutcome>, b: Seq<CommandOutcome>, t: u64)
    ensures
        completed_at(a + b, t) == completed_at(a, t) + completed_at(b, t),
    decreases b.len(),
{
    if b.len() == 0 {
        assert(a + b =~= a);
        assert(completed_at(a, t) + completed_at(b, t) =~= completed_at(a, t));
    } else {
        lemma_completed_at_append(a, b.drop_last(), t);
        assert((a + b).drop_last() =~= a + b.drop_last());
        assert((a + b).last() == b.last());
        if b.last().completed_at_unix == t {
            assert(completed_at(a, t) + completed_at(b, t) =~= (completed_at(a, t) + completed_at(
                b.drop_last(),
                t,
            )).push(b.last()));
        }
    }
}

proof fn lemma_completed_at_none(s: Seq<CommandOutcome>, t: u64)
    requires
        forall|k: int| 0 <= k < s.len() ==> (#[trigger] s[k]).completed_at_unix != t,
    ensures
        completed_at(s, t) == Seq::<CommandOutcome>::empty(),
    decreases s.len(),
{
    if s.len() > 0 {
        let d = s.drop_last();
        assert forall|k: int| 0 <= k < d.len() implies (#[trigger] d[k]).completed_at_unix != t by {
            assert(d[k] == s[k]);
        }
        lemma_completed_at_none(d, t);
        assert(s.last() == s[s.len() - 1]);
    }
}

proof fn lemma_insert_recent_keeps_ties(r: Seq<CommandOutcome>, x: CommandOutcome, t: u64)
    requires
        is_recent_first(r),
    ensures
        completed_at(insert_recent(r, x), t) == if x.completed_at_unix == t {
            completed_at(r, t).push(x)
        } else {
            completed_at(r, t)
        },
{
    let j = first_older(r, x.completed_at_unix);
    lemma_first_older_bounds(r, x.completed_at_unix);
    let pre = r.take(j);
    let post = r.skip(j);
    assert(r =~= pre + post);
    assert(insert_recent(r, x) =~= pre + (seq![x] + post));
    lemma_completed_at_append(pre, seq![x] + post, t);
    lemma_completed_at_append(seq![x], post, t);
    lemma_completed_at_append(pre, post, t);
    assert(seq![x].drop_last() =~= Seq::<CommandOutcome>::empty());
    assert(seq![x].last() == x);
    assert(completed_at(Seq::<CommandOutcome>::empty(), t) =~= Seq::<CommandOutcome>::empty());
    assert(completed_at(seq![x], t) =~= if x.completed_at_unix == t {
        Seq::<CommandOutcome>::empty().push(x)
    } else {
        Seq::<CommandOutcome>::empty()
    });
    if x.completed_at_unix == t {
        assert forall|k: int| 0 <= k < post.len() implies (#[trigger] post[k]).completed_at_unix != t by {
            assert(post[k] == r[j + k]);
            assert(r[j].completed_at_unix < x.completed_at_unix);
            if k > 0 {
                assert(r[j].completed_at_unix >= r[j + k].completed_at_unix);
            }
        }
        lemma_completed_at_none(post, t);
        assert(completed_at(pre, t) + completed_at(seq![x] + post, t) =~= completed_at(pre, t).push(x));
        assert(completed_at(r, t) =~= completed_at(pre, t) + completed_at(post, t));
        assert(completed_at(r, t) =~= completed_at(pre, t));
    } else {
        assert(completed_at(seq![x] + post, t) =~= completed_at(post, t));
    }
}

/// Ordering keeps the relative order of outcomes that completed at the
/// same second: those of each second come out in the order of the log.
pub proof fn law_recent_first_keeps_ties(s: Seq<CommandOutcome>, t: u64)
    ensures
        completed_at(recent_first(s), t) == completed_at(s, t),
    decreases s.len(),
{
    if s.len() > 0 {
        law_recent_first_keeps_ties(s.drop_last(), t);
        law_recent_first_sorts(s.drop_last());
        lemma_insert_recent_keeps_ties(recent_first(s.drop_last()), s.last(), t);
    }
}

/// Order the audit log most recent first; outcomes that completed at the
/// same second keep their order in `log`.
pub fn recent_first_log(log: Vec<CommandOutcome>) -> (out: Vec<CommandOutcome>)
    ensures
        out@ == recent_first(log@),
{
    let ghost orig = log@;
    let n = log.len();
    let mut rest = log;
    let mut out: Vec<CommandOutcome> = Vec::new();
    let mut k: usize = 0;
    while rest.len() > 0
        invariant
            k <= orig.len(),
            rest@ == orig.skip(k as int),
            k + rest@.len() == orig.len(),
            orig.len() == n,
            out@ == recent_first(orig.take(k as int)),
        decreases rest.len(),
    {
        let x = rest.remove(0);
        let t = x.completed_at_unix;
        let mut j: usize = 0;
        while j < out.len() && out[j].completed_at_unix >= t
            invariant
                j <= out@.len(),
                forall|m: int| 0 <= m < j ==> (#[trigger] out@[m]).completed_at_unix >= t,
            decreases out@.len() - j,
        {
            j = j + 1;
        }
        proof {
            lemma_first_older_is(out@, t, j as int);
            assert(x == orig[k as int]);
            let tk = orig.take(k + 1);
            assert(tk.drop_last() =~= orig.take(k as int));
            assert(tk.last() == x);
        }
        out.insert(j, x);
        k = k + 1;
        proof {
            assert(rest@ =~= orig.skip(k as int));
        }
    }
    proof {
        assert(orig.take(k as int) =~= orig);
    }
    out
}

} // verus!
