//! The daemon's node table: one record per registered node, keyed by node
//! id, holding the node's description, liveness status, when it was last
//! seen, and its latest metrics sample.
//!
//! The lifecycle rules live here: registering (or re-registering) marks a
//! node `Registered` and seen now; a metrics sample sets the node's status and
//! marks it seen; a heartbeat marks it seen and brings an `Unreachable` node
//! back as `Healthy`; a reap marks every node not seen within the timeout
//! `Unreachable`.
use vstd::prelude::*;

use crate::error::HpcError;
use crate::text::{chars_equal_str, chars_of, insert_sorted_distinct, push_str, string_views, strictly_sorted};
use crate::types::{now_unix, NodeInfo, NodeStatus};
use crate::daemon::ClusterStatus;

verus! {

/// What the daemon knows about one node. `M` is the metrics sample type.
#[derive(Debug)]
pub struct NodeRecord<M> {
    pub info: NodeInfo,
    pub status: NodeStatus,
    pub last_seen_unix: u64,
    pub latest_metrics: Option<M>,
}

/// The id a record is filed under.
pub open spec fn key_of<M>(r: NodeRecord<M>) -> Seq<char> {
    r.info.node_id@
}

/// The map from node id to record described by a sequence of records.
pub open spec fn map_of<M>(es: Seq<NodeRecord<M>>) -> Map<Seq<char>, NodeRecord<M>>
    decreases es.len(),
{
    if es.len() == 0 {
        Map::empty()
    } else {
        map_of(es.drop_last()).insert(key_of(es.last()), es.last())
    }
}

/// The ids of a sequence of records, in order.
pub open spec fn record_ids<M>(s: Seq<&NodeRecord<M>>) -> Seq<Seq<char>> {
    Seq::new(s.len(), |i: int| key_of(*s[i]))
}

/// No two records share an id.
pub open spec fn distinct_ids<M>(es: Seq<NodeRecord<M>>) -> bool {
    forall|i: int, j: int|
        0 <= i < j < es.len() ==> key_of(#[trigger] es[i]) != key_of(#[trigger] es[j])
}

/// The node table.
#[derive(Debug)]
pub struct NodeTable<M> {
    entries: Vec<NodeRecord<M>>,
}

proof fn lemma_map_of_contains<M>(es: Seq<NodeRecord<M>>, k: Seq<char>)
    ensures
        map_of(es).contains_key(k) <==> exists|i: int| 0 <= i < es.len() && key_of(#[trigger] es[i]) == k,
    decreases es.len(),
{
    if es.len() > 0 {
        let t = es.drop_last();
        lemma_map_of_contains(t, k);
        if map_of(es).contains_key(k) {
            if key_of(es.last()) != k {
                let i = choose|i: int| 0 <= i < t.len() && key_of(#[trigger] t[i]) == k;
                assert(es[i] == t[i]);
            } else {
                assert(key_of(es[es.len() - 1]) == k);
            }
        }
        if exists|i: int| 0 <= i < es.len() && key_of(#[trigger] es[i]) == k {
            let i = choose|i: int| 0 <= i < es.len() && key_of(#[trigger] es[i]) == k;
            if i < es.len() - 1 {
                assert(t[i] == es[i]);
            }
        }
    }
}

/// A record is filed under its own id.
proof fn lemma_map_of_key<M>(es: Seq<NodeRecord<M>>, k: Seq<char>)
    requires
        map_of(es).contains_key(k),
    ensures
        key_of(map_of(es)[k]) == k,
    decreases es.len(),
{
    if es.len() > 0 && key_of(es.last()) != k {
        lemma_map_of_key(es.drop_last(), k);
    }
}

proof fn lemma_distinct_prefix<M>(es: Seq<NodeRecord<M>>)
    requires
        distinct_ids(es),
        es.len() > 0,
    ensures
        distinct_ids(es.drop_last()),
{
    let t = es.drop_last();
    assert forall|a: int, b: int| 0 <= a < b < t.len() implies key_of(#[trigger] t[a]) != key_of(
    #[trigger] t[b]) by {
        assert(t[a] == es[a] && t[b] == es[b]);
    }
}

proof fn lemma_map_of_index<M>(es: Seq<NodeRecord<M>>, i: int)
    requires
        distinct_ids(es),
        0 <= i < es.len(),
    ensures
        map_of(es).contains_key(key_of(es[i])),
        map_of(es)[key_of(es[i])] == es[i],
    decreases es.len(),
{
    let t = es.drop_last();
    if i < es.len() - 1 {
        assert(t[i] == es[i]);
        lemma_distinct_prefix(es);
        lemma_map_of_index(t, i);
        assert(key_of(es[i]) != key_of(es[es.len() - 1]));
    }
}

/// Replacing a record by one with the same id changes just that key.
proof fn lemma_map_of_update<M>(es: Seq<NodeRecord<M>>, i: int, x: NodeRecord<M>)
    requires
        distinct_ids(es),
        0 <= i < es.len(),
        key_of(x) == key_of(es[i]),
    ensures
        map_of(es.update(i, x)) == map_of(es).insert(key_of(x), x),
        distinct_ids(es.update(i, x)),
    decreases es.len(),
{
    let u = es.update(i, x);
    assert forall|a: int, b: int| 0 <= a < b < u.len() implies key_of(#[trigger] u[a]) != key_of(
    #[trigger] u[b]) by {
        assert(key_of(u[a]) == key_of(es[a]) && key_of(u[b]) == key_of(es[b]));
    }
    lemma_distinct_prefix(es);
    if i == es.len() - 1 {
        assert(u.drop_last() =~= es.drop_last());
        assert(map_of(u) =~= map_of(es).insert(key_of(x), x));
    } else {
        let t = es.drop_last();
        assert(t[i] == es[i]);
        lemma_map_of_update(t, i, x);
        assert(u.drop_last() =~= t.update(i, x));
        assert(u.last() == es.last());
        assert(key_of(es.last()) != key_of(x));
        assert(map_of(u) =~= map_of(es).insert(key_of(x), x));
    }
}

/// Removing a record removes just its key.
proof fn lemma_map_of_remove<M>(es: Seq<NodeRecord<M>>, i: int)
    requires
        distinct_ids(es),
        0 <= i < es.len(),
    ensures
        map_of(es.remove(i)) == map_of(es).remove(key_of(es[i])),
        distinct_ids(es.remove(i)),
    decreases es.len(),
{
    let k = key_of(es[i]);
    let r = es.remove(i);
    let t = es.drop_last();
    assert forall|a: int, b: int| 0 <= a < b < r.len() implies key_of(#[trigger] r[a]) != key_of(
    #[trigger] r[b]) by {
        let aa = if a < i { a } else { a + 1 };
        let bb = if b < i { b } else { b + 1 };
        assert(r[a] == es[aa] && r[b] == es[bb]);
    }
    lemma_distinct_prefix(es);
    if i == es.len() - 1 {
        assert(r =~= t);
        lemma_map_of_contains(t, k);
        assert(!map_of(t).contains_key(k)) by {
            if map_of(t).contains_key(k) {
                let j = choose|j: int| 0 <= j < t.len() && key_of(#[trigger] t[j]) == k;
                assert(es[j] == t[j]);
            }
        }
        assert(map_of(r) =~= map_of(es).remove(k));
    } else {
        assert(t[i] == es[i]);
        lemma_map_of_remove(t, i);
        assert(r.drop_last() =~= t.remove(i));
        assert(r.last() == es.last());
        assert(key_of(es.last()) != k);
        assert(map_of(r) =~= map_of(es).remove(k));
    }
}

/// Appending a record with a fresh id adds just that key.
proof fn lemma_map_of_push<M>(es: Seq<NodeRecord<M>>, x: NodeRecord<M>)
    requires
        distinct_ids(es),
        !map_of(es).contains_key(key_of(x)),
    ensures
        map_of(es.push(x)) == map_of(es).insert(key_of(x), x),
        distinct_ids(es.push(x)),
{
    let p = es.push(x);
    assert(p.drop_last() =~= es);
    lemma_map_of_contains(es, key_of(x));
    assert forall|a: int, b: int| 0 <= a < b < p.len() implies key_of(#[trigger] p[a]) != key_of(
    #[trigger] p[b]) by {
        if b == es.len() {
            assert(p[a] == es[a]);
        } else {
            assert(p[a] == es[a] && p[b] == es[b]);
        }
    }
}

proof fn lemma_map_of_len<M>(es: Seq<NodeRecord<M>>)
    requires
        distinct_ids(es),
    ensures
        map_of(es).dom().finite(),
        map_of(es).len() == es.len(),
    decreases es.len(),
{
    if es.len() > 0 {
        let t = es.drop_last();
        lemma_distinct_prefix(es);
        lemma_map_of_len(t);
        lemma_map_of_contains(t, key_of(es.last()));
        assert(!map_of(t).contains_key(key_of(es.last()))) by {
            if map_of(t).contains_key(key_of(es.last())) {
                let j = choose|j: int| 0 <= j < t.len() && key_of(#[trigger] t[j]) == key_of(es.last());
                assert(es[j] == t[j]);
            }
        }
    }
}

/// The record after a (re-)registration of `info` at time `now`: the new
/// description, status `Registered`, seen `now`, and the metrics it had
/// before (none for a new node).
pub open spec fn registered<M>(
    old_map: Map<Seq<char>, NodeRecord<M>>,
    info: NodeInfo,
    now: u64,
) -> NodeRecord<M> {
    NodeRecord {
        info,
        status: NodeStatus::Registered,
        last_seen_unix: now,
        latest_metrics: if old_map.contains_key(info.node_id@) {
            old_map[info.node_id@].latest_metrics
        } else {
            None
        },
    }
}

/// The status a heartbeat leaves: an unreachable node is back as healthy,
/// any other keeps its status.
pub open spec fn status_after_heartbeat(s: NodeStatus) -> NodeStatus {
    if s == NodeStatus::Unreachable {
        NodeStatus::Healthy
    } else {
        s
    }
}

/// A record after a heartbeat at `now`.
pub open spec fn after_heartbeat<M>(r: NodeRecord<M>, now: u64) -> NodeRecord<M> {
    NodeRecord { status: status_after_heartbeat(r.status), last_seen_unix: now, ..r }
}

/// The moment before which a node counts as stale (`now - timeout`, or zero).
pub open spec fn cutoff(now: u64, timeout_secs: u64) -> int {
    if now >= timeout_secs {
        now - timeout_secs
    } else {
        0
    }
}

/// Whether a reap at `now` with the given timeout changes this record.
pub open spec fn goes_stale<M>(r: NodeRecord<M>, now: u64, timeout_secs: u64) -> bool {
    r.last_seen_unix < cutoff(now, timeout_secs) && r.status != NodeStatus::Unreachable
}

/// The record after a reap.
pub open spec fn reaped<M>(r: NodeRecord<M>, now: u64, timeout_secs: u64) -> NodeRecord<M> {
    if goes_stale(r, now, timeout_secs) {
        NodeRecord { status: NodeStatus::Unreachable, ..r }
    } else {
        r
    }
}

/// Whether `e` is the not-found error for `id`.
pub open spec fn is_unknown_node(e: HpcError, id: Seq<char>) -> bool {
    e matches HpcError::NotFound(m) && m@ == "unknown node "@ + id
}

impl<M> NodeTable<M> {
    /// The table as a map from node id to record.
    pub closed spec fn view(&self) -> Map<Seq<char>, NodeRecord<M>> {
        map_of(self.entries@)
    }

    /// The table's invariant: ids are unique.
    pub closed spec fn wf(&self) -> bool {
        distinct_ids(self.entries@)
    }

    /// An empty table.
    pub fn new() -> (t: NodeTable<M>)
        ensures
            t.wf(),
            t.view() == Map::<Seq<char>, NodeRecord<M>>::empty(),
    {
        NodeTable { entries: Vec::new() }
    }

    /// Number of nodes.
    pub fn len(&self) -> (n: usize)
        requires
            self.wf(),
        ensures
            n == self.view().len(),
            self.view().dom().finite(),
    {
        proof {
            lemma_map_of_len(self.entries@);
        }
        self.entries.len()
    }

    /// The position of node `id`, if present.
    fn find(&self, id: &str) -> (r: Option<usize>)
        requires
            self.wf(),
        ensures
            match r {
                Some(i) => i < self.entries@.len() && key_of(self.entries@[i as int]) == id@,
                None => !self.view().contains_key(id@),
            },
    {
        let mut i: usize = 0;
        while i < self.entries.len()
            invariant
                i <= self.entries@.len(),
                forall|j: int| 0 <= j < i ==> key_of(#[trigger] self.entries@[j]) != id@,
            decreases self.entries@.len() - i,
        {
            let c = chars_of(self.entries[i].info.node_id.as_str());
            if chars_equal_str(&c, id) {
                return Some(i);
            }
            i = i + 1;
        }
        proof {
            lemma_map_of_contains(self.entries@, id@);
        }
        None
    }

    /// Whether node `id` is in the table.
    pub fn contains(&self, id: &str) -> (b: bool)
        requires
            self.wf(),
        ensures
            b == self.view().contains_key(id@),
    {
        match self.find(id) {
            Some(i) => {
                proof {
                    lemma_map_of_index(self.entries@, i as int);
                }
                true
            },
            None => false,
        }
    }

    /// The record of node `id`, if present.
    pub fn get(&self, id: &str) -> (r: Option<&NodeRecord<M>>)
        requires
            self.wf(),
        ensures
            match r {
                Some(rec) => self.view().contains_key(id@) && *rec == self.view()[id@],
                None => !self.view().contains_key(id@),
            },
    {
        match self.find(id) {
            Some(i) => {
                proof {
                    lemma_map_of_index(self.entries@, i as int);
                }
                Some(&self.entries[i])
            },
            None => None,
        }
    }

    /// Take record `i` out, for `put_back` to put its successor in its place.
    fn take_at(&mut self, i: usize) -> (prev: NodeRecord<M>)
        requires
            i < old(self).entries@.len(),
        ensures
            prev == old(self).entries@[i as int],
            final(self).entries@ == old(self).entries@.remove(i as int),
    {
        self.entries.remove(i)
    }

    /// Put `x` back at position `i`, where a record with the same id was
    /// taken out.
    fn put_back(&mut self, i: usize, x: NodeRecord<M>, Ghost(es): Ghost<Seq<NodeRecord<M>>>)
        requires
            distinct_ids(es),
            i < es.len(),
            old(self).entries@ == es.remove(i as int),
            key_of(x) == key_of(es[i as int]),
        ensures
            final(self).wf(),
            final(self).entries@ == es.update(i as int, x),
            final(self).view() == map_of(es).insert(key_of(x), x),
    {
        self.entries.insert(i, x);
        proof {
            assert(self.entries@ =~= es.update(i as int, x));
            lemma_map_of_update(es, i as int, x);
        }
    }

    /// Register (or re-register) a node at time `now`: its record takes the
    /// new description, status `Registered` and last-seen `now`, and keeps
    /// any metrics it had.
    pub fn register_at(&mut self, info: NodeInfo, now: u64)
        requires
            old(self).wf(),
        ensures
            final(self).wf(),
            final(self).view() == old(self).view().insert(
                info.node_id@,
                registered(old(self).view(), info, now),
            ),
            final(self).view() == after_register(old(self).view(), info, now),
    {
        let ghost es = self.entries@;
        match self.find(info.node_id.as_str()) {
            Some(i) => {
                proof {
                    lemma_map_of_index(es, i as int);
                }
                let prev = self.take_at(i);
                let rec = NodeRecord {
                    info,
                    status: NodeStatus::Registered,
                    last_seen_unix: now,
                    latest_metrics: prev.latest_metrics,
                };
                self.put_back(i, rec, Ghost(es));
            },
            None => {
                let rec = NodeRecord {
                    info,
                    status: NodeStatus::Registered,
                    last_seen_unix: now,
                    latest_metrics: None,
                };
                proof {
                    lemma_map_of_push(es, rec);
                }
                self.entries.push(rec);
            },
        }
    }

    /// Put back a record loaded from durable storage. The node has not been
    /// heard from since the daemon started, so it is `Unreachable`; the rest
    /// of the record is kept.
    pub fn restore(&mut self, record: NodeRecord<M>)
        requires
            old(self).wf(),
        ensures
            final(self).wf(),
            final(self).view() == old(self).view().insert(
                key_of(record),
                NodeRecord { status: NodeStatus::Unreachable, ..record },
            ),
    {
        let ghost es = self.entries@;
        let rec = NodeRecord {
            info: record.info,
            status: NodeStatus::Unreachable,
            last_seen_unix: record.last_seen_unix,
            latest_metrics: record.latest_metrics,
        };
        match self.find(rec.info.node_id.as_str()) {
            Some(i) => {
                proof {
                    lemma_map_of_index(es, i as int);
                }
                let _ = self.take_at(i);
                self.put_back(i, rec, Ghost(es));
            },
            None => {
                proof {
                    lemma_map_of_push(es, rec);
                }
                self.entries.push(rec);
            },
        }
    }

    /// Register (or re-register) a node now. Returns the time it was marked
    /// seen.
    pub fn register_node(&mut self, info: NodeInfo) -> (now: u64)
        requires
            old(self).wf(),
        ensures
            final(self).wf(),
            final(self).view() == old(self).view().insert(
                info.node_id@,
                registered(old(self).view(), info, now),
            ),
    {
        let now = now_unix();
        self.register_at(info, now);
        now
    }

    /// Record a heartbeat from node `id` at time `now`: it is seen `now`, and
    /// an `Unreachable` node is `Healthy` again. An unknown id is refused
    /// with `NotFound` and the table is left as it was.
    pub fn heartbeat_at(&mut self, id: &str, now: u64) -> (r: Result<(), HpcError>)
        requires
            old(self).wf(),
        ensures
            final(self).wf(),
            r is Ok <==> old(self).view().contains_key(id@),
            r is Ok ==> final(self).view() == old(self).view().insert(
                id@,
                after_heartbeat(old(self).view()[id@], now),
            ),
            r matches Err(e) ==> is_unknown_node(e, id@) && final(self).view() == old(self).view(),
    {
        let ghost es = self.entries@;
        match self.find(id) {
            Some(i) => {
                proof {
                    lemma_map_of_index(es, i as int);
                }
                let prev = self.take_at(i);
                let status = if prev.status == NodeStatus::Unreachable {
                    NodeStatus::Healthy
                } else {
                    prev.status
                };
                let rec = NodeRecord {
                    info: prev.info,
                    status,
                    last_seen_unix: now,
                    latest_metrics: prev.latest_metrics,
                };
                self.put_back(i, rec, Ghost(es));
                Ok(())
            },
            None => Err(unknown_node_error(id)),
        }
    }

    /// Record a heartbeat from node `id` now.
    pub fn heartbeat(&mut self, id: &str) -> (r: Result<u64, HpcError>)
        requires
            old(self).wf(),
        ensures
            final(self).wf(),
            r is Ok <==> old(self).view().contains_key(id@),
            r matches Ok(now) ==> final(self).view() == old(self).view().insert(
                id@,
                after_heartbeat(old(self).view()[id@], now),
            ),
            r matches Err(e) ==> is_unknown_node(e, id@) && final(self).view() == old(self).view(),
    {
        let now = now_unix();
        match self.heartbeat_at(id, now) {
            Ok(()) => Ok(now),
            Err(e) => Err(e),
        }
    }

    /// Apply a metrics sample from node `id` at time `now`, with the status
    /// derived from it: the record takes that status, last-seen `now` and the
    /// sample. An unknown id is refused with `NotFound` and the table is left
    /// as it was.
    pub fn ingest_at(&mut self, id: &str, status: NodeStatus, report: M, now: u64) -> (r: Result<(), HpcError>)
        requires
            old(self).wf(),
        ensures
            final(self).wf(),
            r is Ok <==> old(self).view().contains_key(id@),
            r is Ok ==> final(self).view() == old(self).view().insert(
                id@,
                NodeRecord {
                    status,
                    last_seen_unix: now,
                    latest_metrics: Some(report),
                    ..old(self).view()[id@]
                },
            ),
            r matches Err(e) ==> is_unknown_node(e, id@) && final(self).view() == old(self).view(),
    {
        let ghost es = self.entries@;
        match self.find(id) {
            Some(i) => {
                proof {
                    lemma_map_of_index(es, i as int);
                }
                let prev = self.take_at(i);
                let rec = NodeRecord {
                    info: prev.info,
                    status,
                    last_seen_unix: now,
                    latest_metrics: Some(report),
                };
                self.put_back(i, rec, Ghost(es));
                Ok(())
            },
            None => Err(unknown_node_error(id)),
        }
    }

    /// Drop node `id` from the table. Returns whether it was there.
    pub fn remove(&mut self, id: &str) -> (removed: bool)
        requires
            old(self).wf(),
        ensures
            final(self).wf(),
            removed == old(self).view().contains_key(id@),
            final(self).view() == old(self).view().remove(id@),
    {
        let ghost es = self.entries@;
        match self.find(id) {
            Some(i) => {
                proof {
                    lemma_map_of_remove(es, i as int);
                    lemma_map_of_index(es, i as int);
                }
                let _ = self.entries.remove(i);
                true
            },
            None => {
                proof {
                    assert(map_of(es).remove(id@) =~= map_of(es));
                }
                false
            },
        }
    }
}

impl<M> NodeTable<M> {
    /// Mark every node not seen since `now - timeout_secs` (saturating at
    /// zero) `Unreachable`. Returns the ids whose status changed, each once.
    pub fn reap_stale_at(&mut self, now: u64, timeout_secs: u64) -> (changed: Vec<String>)
        requires
            old(self).wf(),
        ensures
            final(self).wf(),
            final(self).view().dom() == old(self).view().dom(),
            forall|k: Seq<char>| #[trigger] old(self).view().contains_key(k) ==> final(self).view()[k]
                == reaped(old(self).view()[k], now, timeout_secs),
            final(self).view() == after_reap(old(self).view(), now, timeout_secs),
            string_views(changed@).no_duplicates(),
            forall|k: Seq<char>| #[trigger] string_views(changed@).contains(k) <==> (old(self).view().contains_key(k)
                && goes_stale(old(self).view()[k], now, timeout_secs)),
    {
        let cut: u64 = now.saturating_sub(timeout_secs);
        let ghost es = self.entries@;
        let mut changed: Vec<String> = Vec::new();
        let mut i: usize = 0;
        while i < self.entries.len()
            invariant
                cut == cutoff(now, timeout_secs),
                distinct_ids(es),
                self.entries@.len() == es.len(),
                i <= es.len(),
                forall|j: int| 0 <= j < i ==> #[trigger] self.entries@[j] == reaped(es[j], now, timeout_secs),
                forall|j: int| i <= j < es.len() ==> #[trigger] self.entries@[j] == es[j],
                string_views(changed@).no_duplicates(),
                forall|k: Seq<char>| #[trigger] string_views(changed@).contains(k) <==> exists|j: int|
                    0 <= j < i && key_of(#[trigger] es[j]) == k && goes_stale(es[j], now, timeout_secs),
            decreases es.len() - i,
        {
            if self.entries[i].last_seen_unix < cut && self.entries[i].status != NodeStatus::Unreachable {
                let ghost cur = self.entries@;
                let prev = self.entries.remove(i);
                let id = prev.info.node_id.clone();
                let rec = NodeRecord {
                    info: prev.info,
                    status: NodeStatus::Unreachable,
                    last_seen_unix: prev.last_seen_unix,
                    latest_metrics: prev.latest_metrics,
                };
                self.entries.insert(i, rec);
                proof {
                    assert(self.entries@ =~= cur.update(i as int, reaped(es[i as int], now, timeout_secs)));
                }
                let ghost before = string_views(changed@);
                changed.push(id);
                proof {
                    let k = key_of(es[i as int]);
                    assert(string_views(changed@) =~= before.push(k));
                    assert(!before.contains(k)) by {
                        if before.contains(k) {
                            let j = choose|j: int| 0 <= j < i && key_of(#[trigger] es[j]) == k && goes_stale(es[j], now, timeout_secs);
                        }
                    }
                    assert forall|a: int, b: int| 0 <= a < b < string_views(changed@).len() implies
                        string_views(changed@)[a] != string_views(changed@)[b] by {
                        if b == before.len() {
                            assert(before[a] == string_views(changed@)[a]);
                            assert(before.contains(before[a]));
                        }
                    }
                    assert forall|kk: Seq<char>| #[trigger] string_views(changed@).contains(kk) <==> exists|j: int|
                        0 <= j < i + 1 && key_of(#[trigger] es[j]) == kk && goes_stale(es[j], now, timeout_secs) by {
                        if string_views(changed@).contains(kk) {
                            let p = choose|p: int| 0 <= p < string_views(changed@).len() && string_views(changed@)[p] == kk;
                            if p < before.len() {
                                assert(before[p] == kk);
                                assert(before.contains(kk));
                            } else {
                                assert(key_of(es[i as int]) == kk);
                            }
                        }
                        if exists|j: int| 0 <= j < i + 1 && key_of(#[trigger] es[j]) == kk && goes_stale(es[j], now, timeout_secs) {
                            let j = choose|j: int| 0 <= j < i + 1 && key_of(#[trigger] es[j]) == kk && goes_stale(es[j], now, timeout_secs);
                            if j < i {
                                assert(before.contains(kk));
                                let p = choose|p: int| 0 <= p < before.len() && before[p] == kk;
                                assert(string_views(changed@)[p] == kk);
                            } else {
                                assert(string_views(changed@)[before.len() as int] == kk);
                            }
                        }
                    }
                }
            } else {
                proof {
                    assert(reaped(es[i as int], now, timeout_secs) == es[i as int]);
                    assert forall|kk: Seq<char>| #[trigger] string_views(changed@).contains(kk) <==> exists|j: int|
                        0 <= j < i + 1 && key_of(#[trigger] es[j]) == kk && goes_stale(es[j], now, timeout_secs) by {
                        if exists|j: int| 0 <= j < i + 1 && key_of(#[trigger] es[j]) == kk && goes_stale(es[j], now, timeout_secs) {
                            let j = choose|j: int| 0 <= j < i + 1 && key_of(#[trigger] es[j]) == kk && goes_stale(es[j], now, timeout_secs);
                            assert(j < i);
                        }
                    }
                }
            }
            i = i + 1;
        }
        proof {
            let ns = self.entries@;
            let ghost fm = after_reap(map_of(es), now, timeout_secs);
            assert forall|a: int, b: int| 0 <= a < b < ns.len() implies key_of(#[trigger] ns[a]) != key_of(
            #[trigger] ns[b]) by {
                assert(key_of(ns[a]) == key_of(es[a]) && key_of(ns[b]) == key_of(es[b]));
            }
            assert forall|k: Seq<char>| map_of(ns).contains_key(k) <==> map_of(es).contains_key(k) by {
                lemma_map_of_contains(ns, k);
                lemma_map_of_contains(es, k);
                if map_of(ns).contains_key(k) {
                    let j = choose|j: int| 0 <= j < ns.len() && key_of(#[trigger] ns[j]) == k;
                    assert(key_of(es[j]) == k);
                }
                if map_of(es).contains_key(k) {
                    let j = choose|j: int| 0 <= j < es.len() && key_of(#[trigger] es[j]) == k;
                    assert(key_of(ns[j]) == k);
                }
            }
            assert(map_of(ns).dom() =~= map_of(es).dom());
            assert forall|k: Seq<char>| #[trigger] map_of(es).contains_key(k) implies map_of(ns)[k]
                == reaped(map_of(es)[k], now, timeout_secs) && (string_views(changed@).contains(k) <==> goes_stale(map_of(es)[k], now, timeout_secs)) by {
                lemma_map_of_contains(es, k);
                let j = choose|j: int| 0 <= j < es.len() && key_of(#[trigger] es[j]) == k;
                lemma_map_of_index(es, j);
                lemma_map_of_index(ns, j);
                assert(key_of(ns[j]) == k);
                if string_views(changed@).contains(k) {
                    let j2 = choose|j2: int| 0 <= j2 < es.len() && key_of(#[trigger] es[j2]) == k && goes_stale(es[j2], now, timeout_secs);
                    if j2 != j {
                        if j2 < j {
                            assert(key_of(es[j2]) != key_of(es[j]));
                        } else {
                            assert(key_of(es[j]) != key_of(es[j2]));
                        }
                    }
                }
            }
            assert forall|k: Seq<char>| #[trigger] string_views(changed@).contains(k) implies map_of(es).contains_key(k) by {
                let j2 = choose|j2: int| 0 <= j2 < es.len() && key_of(#[trigger] es[j2]) == k && goes_stale(es[j2], now, timeout_secs);
                lemma_map_of_index(es, j2);
            }
            assert(map_of(ns) =~= fm);
        }
        changed
    }

    /// Mark every node not seen within `timeout_secs` of now `Unreachable`.
    /// Returns the time used and the ids whose status changed.
    pub fn reap_stale(&mut self, timeout_secs: u64) -> (r: (u64, Vec<String>))
        requires
            old(self).wf(),
        ensures
            final(self).wf(),
            final(self).view().dom() == old(self).view().dom(),
            forall|k: Seq<char>| #[trigger] old(self).view().contains_key(k) ==> final(self).view()[k]
                == reaped(old(self).view()[k], r.0, timeout_secs),
            final(self).view() == after_reap(old(self).view(), r.0, timeout_secs),
            string_views(r.1@).no_duplicates(),
            forall|k: Seq<char>| #[trigger] string_views(r.1@).contains(k) <==> (old(self).view().contains_key(k)
                && goes_stale(old(self).view()[k], r.0, timeout_secs)),
    {
        let now = now_unix();
        let changed = self.reap_stale_at(now, timeout_secs);
        (now, changed)
    }
}

/// The ids in `m` whose status satisfies `p`.
pub open spec fn nodes_where<M>(m: Map<Seq<char>, NodeRecord<M>>, p: spec_fn(NodeStatus) -> bool) -> Set<Seq<char>> {
    m.dom().filter(|k: Seq<char>| p(m[k].status))
}

/// Statuses counted as healthy in the cluster summary.
pub open spec fn counts_healthy(s: NodeStatus) -> bool {
    s == NodeStatus::Healthy || s == NodeStatus::Registered
}

pub open spec fn counts_degraded(s: NodeStatus) -> bool {
    s == NodeStatus::Degraded
}

pub open spec fn counts_unreachable(s: NodeStatus) -> bool {
    s == NodeStatus::Unreachable
}

/// Adding the next record to a prefix adds its id to the ids that satisfy
/// `p` exactly when its status does.
proof fn lemma_nodes_where_step<M>(es: Seq<NodeRecord<M>>, i: int, p: spec_fn(NodeStatus) -> bool)
    requires
        distinct_ids(es),
        0 <= i < es.len(),
    ensures
        nodes_where(map_of(es.take(i)), p).finite(),
        !nodes_where(map_of(es.take(i)), p).contains(key_of(es[i])),
        nodes_where(map_of(es.take(i + 1)), p) == if p(es[i].status) {
            nodes_where(map_of(es.take(i)), p).insert(key_of(es[i]))
        } else {
            nodes_where(map_of(es.take(i)), p)
        },
{
    let a = es.take(i);
    let b = es.take(i + 1);
    assert(b.drop_last() =~= a);
    assert(b.last() == es[i]);
    assert(distinct_ids(a)) by {
        assert forall|x: int, y: int| 0 <= x < y < a.len() implies key_of(#[trigger] a[x]) != key_of(#[trigger] a[y]) by {
            assert(a[x] == es[x] && a[y] == es[y]);
        }
    }
    lemma_map_of_len(a);
    map_of(a).dom().lemma_len_filter(|k: Seq<char>| p(map_of(a)[k].status));
    lemma_map_of_contains(a, key_of(es[i]));
    assert(!map_of(a).contains_key(key_of(es[i]))) by {
        if map_of(a).contains_key(key_of(es[i])) {
            let j = choose|j: int| 0 <= j < a.len() && key_of(#[trigger] a[j]) == key_of(es[i]);
            assert(a[j] == es[j]);
        }
    }
    let ma = map_of(a);
    let mb = map_of(b);
    assert(mb == ma.insert(key_of(es[i]), es[i]));
    if p(es[i].status) {
        assert(nodes_where(mb, p) =~= nodes_where(ma, p).insert(key_of(es[i])));
    } else {
        assert(nodes_where(mb, p) =~= nodes_where(ma, p));
    }
}

impl<M> NodeTable<M> {
    /// The ids of all nodes, in ascending order, each once.
    pub fn node_ids(&self) -> (ids: Vec<String>)
        requires
            self.wf(),
        ensures
            strictly_sorted(string_views(ids@)),
            string_views(ids@).to_set() == self.view().dom(),
    {
        let ghost es = self.entries@;
        let mut ids: Vec<String> = Vec::new();
        let mut i: usize = 0;
        proof {
            assert(string_views(ids@).to_set() =~= map_of(es.take(0)).dom());
        }
        while i < self.entries.len()
            invariant
                es == self.entries@,
                i <= es.len(),
                strictly_sorted(string_views(ids@)),
                string_views(ids@).to_set() == map_of(es.take(i as int)).dom(),
            decreases es.len() - i,
        {
            insert_sorted_distinct(&mut ids, self.entries[i].info.node_id.as_str());
            proof {
                let b = es.take(i + 1);
                assert(b.drop_last() =~= es.take(i as int));
                assert(b.last() == es[i as int]);
                assert(map_of(b).dom() =~= map_of(es.take(i as int)).dom().insert(key_of(es[i as int])));
            }
            i = i + 1;
        }
        proof {
            assert(es.take(es.len() as int) =~= es);
        }
        ids
    }

    /// Every record, in ascending order of node id.
    pub fn records(&self) -> (out: Vec<&NodeRecord<M>>)
        requires
            self.wf(),
        ensures
            strictly_sorted(record_ids(out@)),
            record_ids(out@).to_set() == self.view().dom(),
            forall|i: int| 0 <= i < out@.len() ==> *(#[trigger] out@[i]) == self.view()[key_of(*out@[i])],
    {
        let ids = self.node_ids();
        let mut out: Vec<&NodeRecord<M>> = Vec::new();
        let mut i: usize = 0;
        while i < ids.len()
            invariant
                self.wf(),
                i <= ids@.len(),
                strictly_sorted(string_views(ids@)),
                string_views(ids@).to_set() == self.view().dom(),
                record_ids(out@) =~= string_views(ids@).take(i as int),
                forall|j: int| 0 <= j < out@.len() ==> *(#[trigger] out@[j]) == self.view()[key_of(*out@[j])],
            decreases ids@.len() - i,
        {
            proof {
                assert(string_views(ids@).to_set().contains(string_views(ids@)[i as int]));
            }
            match self.get(ids[i].as_str()) {
                Some(r) => {
                    proof {
                        lemma_map_of_key(self.entries@, ids@[i as int]@);
                    }
                    let ghost before = out@;
                    out.push(r);
                    proof {
                        assert(record_ids(out@) =~= record_ids(before).push(ids@[i as int]@));
                        assert(string_views(ids@).take(i + 1) =~= string_views(ids@).take(i as int).push(
                            ids@[i as int]@,
                        ));
                    }
                },
                None => {
                    proof {
                        assert(false);
                    }
                },
            }
            i = i + 1;
        }
        proof {
            assert(string_views(ids@).take(ids@.len() as int) =~= string_views(ids@));
        }
        out
    }

    /// The cluster summary: how many nodes there are, how many count as
    /// healthy (`Healthy` or `Registered`), degraded and unreachable
    /// (`Draining` nodes are in none of these), with the given epoch, number
    /// of live command streams and server time.
    pub fn cluster_status(&self, epoch: u64, connected_streams: usize, server_time_unix: u64) -> (st: ClusterStatus)
        requires
            self.wf(),
        ensures
            self.view().dom().finite(),
            st.epoch == epoch,
            st.connected_streams == connected_streams,
            st.server_time_unix == server_time_unix,
            st.total_nodes == self.view().len(),
            st.healthy == nodes_where(self.view(), |s: NodeStatus| counts_healthy(s)).len(),
            st.degraded == nodes_where(self.view(), |s: NodeStatus| counts_degraded(s)).len(),
            st.unreachable == nodes_where(self.view(), |s: NodeStatus| counts_unreachable(s)).len(),
    {
        let ghost es = self.entries@;
        let ghost ph = |s: NodeStatus| counts_healthy(s);
        let ghost pd = |s: NodeStatus| counts_degraded(s);
        let ghost pu = |s: NodeStatus| counts_unreachable(s);
        let mut healthy: usize = 0;
        let mut degraded: usize = 0;
        let mut unreachable: usize = 0;
        let mut i: usize = 0;
        proof {
            assert(nodes_where(map_of(es.take(0)), ph) =~= Set::empty());
            assert(nodes_where(map_of(es.take(0)), pd) =~= Set::empty());
            assert(nodes_where(map_of(es.take(0)), pu) =~= Set::empty());
        }
        while i < self.entries.len()
            invariant
                es == self.entries@,
                distinct_ids(es),
                i <= es.len(),
                ph == (|s: NodeStatus| counts_healthy(s)),
                pd == (|s: NodeStatus| counts_degraded(s)),
                pu == (|s: NodeStatus| counts_unreachable(s)),
                healthy == nodes_where(map_of(es.take(i as int)), ph).len(),
                degraded == nodes_where(map_of(es.take(i as int)), pd).len(),
                unreachable == nodes_where(map_of(es.take(i as int)), pu).len(),
                healthy <= i,
                degraded <= i,
                unreachable <= i,
            decreases es.len() - i,
        {
            proof {
                lemma_nodes_where_step(es, i as int, ph);
                lemma_nodes_where_step(es, i as int, pd);
                lemma_nodes_where_step(es, i as int, pu);
            }
            let s = self.entries[i].status;
            match s {
                NodeStatus::Healthy | NodeStatus::Registered => {
                    healthy = healthy + 1;
                },
                NodeStatus::Degraded => {
                    degraded = degraded + 1;
                },
                NodeStatus::Unreachable => {
                    unreachable = unreachable + 1;
                },
                NodeStatus::Draining => {},
            }
            i = i + 1;
        }
        proof {
            assert(es.take(es.len() as int) =~= es);
            lemma_map_of_len(es);
        }
        ClusterStatus {
            epoch,
            total_nodes: self.entries.len(),
            healthy,
            degraded,
            unreachable,
            connected_streams,
            server_time_unix,
        }
    }
}

/// The table after a reap at `now` with the given timeout.
pub open spec fn after_reap<M>(m: Map<Seq<char>, NodeRecord<M>>, now: u64, timeout_secs: u64) -> Map<
    Seq<char>,
    NodeRecord<M>,
> {
    m.map_values(|r: NodeRecord<M>| reaped(r, now, timeout_secs))
}

/// A node that a reap marks unreachable is healthy again after its next
/// heartbeat.
pub proof fn law_heartbeat_revives_reaped<M>(
    m: Map<Seq<char>, NodeRecord<M>>,
    k: Seq<char>,
    now: u64,
    timeout_secs: u64,
    later: u64,
)
    requires
        m.contains_key(k),
        goes_stale(m[k], now, timeout_secs),
    ensures
        after_reap(m, now, timeout_secs)[k].status == NodeStatus::Unreachable,
        after_heartbeat(after_reap(m, now, timeout_secs)[k], later).status == NodeStatus::Healthy,
{
}

/// Reaping twice at the same moment is reaping once: the second reap
/// changes no record and reports no id.
pub proof fn law_reap_idempotent<M>(m: Map<Seq<char>, NodeRecord<M>>, now: u64, timeout_secs: u64)
    ensures
        after_reap(after_reap(m, now, timeout_secs), now, timeout_secs) == after_reap(m, now, timeout_secs),
        forall|k: Seq<char>| #[trigger] after_reap(m, now, timeout_secs).contains_key(k) ==> !goes_stale(
            after_reap(m, now, timeout_secs)[k],
            now,
            timeout_secs,
        ),
{
    let once = after_reap(m, now, timeout_secs);
    assert(after_reap(once, now, timeout_secs) =~= once);
}

/// A node seen at `seen` is not marked unreachable by a reap at `now` while
/// `now` is within the timeout of `seen`; in particular a node just
/// registered or heard from survives a reap at the same moment.
pub proof fn law_recently_seen_survives_reap<M>(r: NodeRecord<M>, now: u64, timeout_secs: u64)
    requires
        now <= r.last_seen_unix + timeout_secs,
    ensures
        !goes_stale(r, now, timeout_secs),
        reaped(r, now, timeout_secs) == r,
{
}

/// A heartbeat changes only an `Unreachable` status; a registered node stays
/// `Registered` until a metrics sample or a reap says otherwise.
pub proof fn law_heartbeat_keeps_live_status<M>(r: NodeRecord<M>, now: u64)
    requires
        r.status != NodeStatus::Unreachable,
    ensures
        after_heartbeat(r, now).status == r.status,
        after_heartbeat(r, now).info == r.info,
        after_heartbeat(r, now).latest_metrics == r.latest_metrics,
{
}

/// The table after registering `info` at `now`.
pub open spec fn after_register<M>(m: Map<Seq<char>, NodeRecord<M>>, info: NodeInfo, now: u64) -> Map<
    Seq<char>,
    NodeRecord<M>,
> {
    m.insert(info.node_id@, registered(m, info, now))
}

/// Registration is idempotent: registering the same node again leaves the
/// table as a single registration at the later time would.
pub proof fn law_register_idempotent<M>(
    m: Map<Seq<char>, NodeRecord<M>>,
    info: NodeInfo,
    first: u64,
    second: u64,
)
    ensures
        after_register(after_register(m, info, first), info, second) == after_register(m, info, second),
{
    let once = after_register(m, info, first);
    assert(registered(once, info, second) == registered(m, info, second));
    assert(after_register(once, info, second) =~= after_register(m, info, second));
}

/// The stale threshold is exactly the timeout: a reap at `now` marks a node
/// `Unreachable` (and reports it) exactly when it was last seen more than
/// `timeout_secs` before `now` and is not already unreachable; every other
/// node keeps its status.
pub proof fn law_reap_threshold<M>(m: Map<Seq<char>, NodeRecord<M>>, k: Seq<char>, now: u64, timeout_secs: u64)
    requires
        m.contains_key(k),
    ensures
        goes_stale(m[k], now, timeout_secs) <==> (m[k].last_seen_unix + timeout_secs < now && m[k].status
            != NodeStatus::Unreachable),
        after_reap(m, now, timeout_secs).contains_key(k),
        after_reap(m, now, timeout_secs)[k].status == (if m[k].last_seen_unix + timeout_secs < now {
            NodeStatus::Unreachable
        } else {
            m[k].status
        }),
{
}

/// A reap changes nothing but statuses: every record keeps its
/// description, last-seen time and metrics, and a node is only ever marked
/// `Unreachable`.
pub proof fn law_reap_changes_only_status<M>(
    m: Map<Seq<char>, NodeRecord<M>>,
    k: Seq<char>,
    now: u64,
    timeout_secs: u64,
)
    requires
        m.contains_key(k),
    ensures
        after_reap(m, now, timeout_secs).contains_key(k),
        after_reap(m, now, timeout_secs)[k].info == m[k].info,
        after_reap(m, now, timeout_secs)[k].last_seen_unix == m[k].last_seen_unix,
        after_reap(m, now, timeout_secs)[k].latest_metrics == m[k].latest_metrics,
        after_reap(m, now, timeout_secs)[k].status == m[k].status || after_reap(m, now, timeout_secs)[k].status
            == NodeStatus::Unreachable,
{
}

/// Once a node is removed, the table no longer knows it: a heartbeat or a
/// metrics sample for it is refused as unknown until it registers again.
pub proof fn law_removed_node_is_unknown<M>(m: Map<Seq<char>, NodeRecord<M>>, k: Seq<char>, info: NodeInfo, now: u64)
    requires
        info.node_id@ == k,
    ensures
        !m.remove(k).contains_key(k),
        m.remove(k).insert(k, registered(m.remove(k), info, now)).contains_key(k),
        registered(m.remove(k), info, now).latest_metrics is None,
{
}

/// The healthy, degraded and unreachable counts of a cluster summary never
/// add up to more than the number of nodes.
pub proof fn law_status_counts_within_total<M>(m: Map<Seq<char>, NodeRecord<M>>)
    requires
        m.dom().finite(),
    ensures
        nodes_where(m, |s: NodeStatus| counts_healthy(s)).len() + nodes_where(m, |s: NodeStatus| counts_degraded(s)).len()
            + nodes_where(m, |s: NodeStatus| counts_unreachable(s)).len() <= m.len(),
{
    let h = nodes_where(m, |s: NodeStatus| counts_healthy(s));
    let d = nodes_where(m, |s: NodeStatus| counts_degraded(s));
    let u = nodes_where(m, |s: NodeStatus| counts_unreachable(s));
    let hd = h.union(d);
    assert(h.disjoint(d));
    vstd::set_lib::lemma_set_disjoint_lens(h, d);
    assert(hd.disjoint(u));
    vstd::set_lib::lemma_set_disjoint_lens(hd, u);
    assert(hd.union(u).subset_of(m.dom()));
    vstd::set_lib::lemma_len_subset(hd.union(u), m.dom());
}

/// The error for an unknown node id: `NotFound("unknown node <id>")`.
pub fn unknown_node_error(id: &str) -> (e: HpcError)
    ensures
        is_unknown_node(e, id@),
{
    let mut m = String::new();
    push_str(&mut m, "unknown node ");
    push_str(&mut m, id);
    proof {
        reveal_strlit("unknown node ");
    }
    HpcError::NotFound(m)
}

} // verus!
