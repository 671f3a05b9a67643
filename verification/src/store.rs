//! The record store: a table of workout records keyed by id, reconciled
//! under a last-write-wins policy and searched by vector distance.

use vstd::prelude::*;
use vstd::pervasive::VecAdditionalExecFns;
use crate::embedding::{Embedding, sq_dist};
use crate::record::{RecordModel, WorkoutRecord};

verus! {

/// Outcome of reconciling one submitted record.
#[derive(PartialEq, Eq, Structural, Clone, Copy, Debug)]
pub enum UpsertOutcome {
    /// The submission was inserted, or replaced the stored record.
    Applied,
    /// A stored record with the same id and an equal or newer `created_at`
    /// already existed; the submission was discarded without error.
    SkippedConflict,
}

/// Whether an incoming record wins against the stored state: it does when
/// its id is absent, or the stored record is strictly older.
pub open spec fn wins(m: Map<u128, RecordModel>, r: RecordModel) -> bool {
    !m.dom().contains(r.id) || m[r.id].created_at < r.created_at
}

/// One step of last-write-wins reconciliation: a winning record replaces
/// every stored field; a losing one leaves the store untouched.
pub open spec fn apply_one(m: Map<u128, RecordModel>, r: RecordModel) -> Map<u128, RecordModel> {
    if wins(m, r) {
        m.insert(r.id, r)
    } else {
        m
    }
}

/// Reconciliation of a whole batch, in submission order.
pub open spec fn apply_batch(m: Map<u128, RecordModel>, b: Seq<RecordModel>) -> Map<
    u128,
    RecordModel,
>
    decreases b.len(),
{
    if b.len() == 0 {
        m
    } else {
        apply_one(apply_batch(m, b.drop_last()), b.last())
    }
}

/// The mathematical image of a sequence of records.
pub open spec fn models(s: Seq<WorkoutRecord>) -> Seq<RecordModel> {
    s.map_values(|r: WorkoutRecord| r@)
}

/// No two records of the sequence share an id.
pub open spec fn unique_ids(s: Seq<WorkoutRecord>) -> bool {
    forall|i: int, j: int| 0 <= i < j < s.len() ==> s[i]@.id != s[j]@.id
}

/// The table a sequence of records stands for: later entries shadow
/// earlier ones, though under `unique_ids` no shadowing ever happens.
pub open spec fn seq_to_map(s: Seq<WorkoutRecord>) -> Map<u128, RecordModel>
    decreases s.len(),
{
    if s.len() == 0 {
        Map::empty()
    } else {
        seq_to_map(s.drop_last()).insert(s.last()@.id, s.last()@)
    }
}

/// An id is in the table exactly when some record of the sequence carries it.
proof fn lemma_seq_to_map_dom(s: Seq<WorkoutRecord>)
    ensures
        forall|id: u128|
            seq_to_map(s).dom().contains(id) <==> exists|i: int|
                0 <= i < s.len() && #[trigger] s[i]@.id == id,
    decreases s.len(),
{
    if s.len() > 0 {
        lemma_seq_to_map_dom(s.drop_last());
        assert forall|id: u128| seq_to_map(s).dom().contains(id) implies exists|i: int|
            0 <= i < s.len() && #[trigger] s[i]@.id == id by {
            if s.last()@.id == id {
                assert(s[s.len() - 1]@.id == id);
            } else {
                assert(seq_to_map(s.drop_last()).dom().contains(id));
                let i = choose|i: int|
                    0 <= i < s.drop_last().len() && #[trigger] s.drop_last()[i]@.id == id;
                assert(s[i] == s.drop_last()[i]);
                assert(s[i]@.id == id);
            }
        }
        assert forall|id: u128|
            exists|i: int| 0 <= i < s.len() && #[trigger] s[i]@.id == id implies seq_to_map(
            s,
        ).dom().contains(id) by {
            let i = choose|i: int| 0 <= i < s.len() && #[trigger] s[i]@.id == id;
            if i < s.len() - 1 {
                assert(s.drop_last()[i]@.id == id);
                assert(exists|p: int|
                    0 <= p < s.drop_last().len() && #[trigger] s.drop_last()[p]@.id == id);
                assert(seq_to_map(s.drop_last()).dom().contains(id));
            } else {
                assert(s.last()@.id == id);
            }
        }
    }
}

/// With unique ids, each record is the table's entry for its id.
proof fn lemma_seq_to_map_index(s: Seq<WorkoutRecord>)
    requires
        unique_ids(s),
    ensures
        forall|i: int|
            0 <= i < s.len() ==> seq_to_map(s).dom().contains(#[trigger] s[i]@.id)
                && seq_to_map(s)[s[i]@.id] == s[i]@,
    decreases s.len(),
{
    if s.len() > 0 {
        assert(unique_ids(s.drop_last()));
        lemma_seq_to_map_index(s.drop_last());
        assert forall|i: int|
            0 <= i < s.len() implies seq_to_map(s).dom().contains(#[trigger] s[i]@.id)
            && seq_to_map(s)[s[i]@.id] == s[i]@ by {
            if i < s.len() - 1 {
                assert(s.drop_last()[i] == s[i]);
                assert(s[i]@.id != s.last()@.id);
            }
        }
    }
}

/// Replacing the record at a position by one with the same id updates the
/// table entry for that id and nothing else.
proof fn lemma_seq_to_map_update(s: Seq<WorkoutRecord>, j: int, r: WorkoutRecord)
    requires
        unique_ids(s),
        0 <= j < s.len(),
        s[j]@.id == r@.id,
    ensures
        seq_to_map(s.update(j, r)) == seq_to_map(s).insert(r@.id, r@),
    decreases s.len(),
{
    let su = s.update(j, r);
    if j == s.len() - 1 {
        assert(su.drop_last() =~= s.drop_last());
        assert(su.last() == r);
        assert(seq_to_map(su) == seq_to_map(s.drop_last()).insert(r@.id, r@));
        assert(seq_to_map(s.drop_last()).insert(s.last()@.id, s.last()@).insert(r@.id, r@)
            =~= seq_to_map(s.drop_last()).insert(r@.id, r@));
    } else {
        assert(unique_ids(s.drop_last()));
        assert(s.drop_last()[j] == s[j]);
        lemma_seq_to_map_update(s.drop_last(), j, r);
        assert(su.drop_last() =~= s.drop_last().update(j, r));
        assert(su.last() == s.last());
        assert(seq_to_map(su) == seq_to_map(s.drop_last()).insert(r@.id, r@).insert(
            s.last()@.id,
            s.last()@,
        ));
        assert(s[j]@.id != s.last()@.id);
        assert(seq_to_map(s.drop_last()).insert(r@.id, r@).insert(s.last()@.id, s.last()@)
            =~= seq_to_map(s.drop_last()).insert(s.last()@.id, s.last()@).insert(r@.id, r@));
    }
}

/// The stored entry for a record's id exists and is at least as new as
/// the record itself.
spec fn dominates(m: Map<u128, RecordModel>, r: RecordModel) -> bool {
    m.dom().contains(r.id) && m[r.id].created_at >= r.created_at
}

/// Reconciling any record never makes a stored entry older.
proof fn lemma_apply_one_keeps_domination(m: Map<u128, RecordModel>, r: RecordModel, x: RecordModel)
    requires
        dominates(m, x),
    ensures
        dominates(apply_one(m, r), x),
{
}

/// After a batch is reconciled, the store dominates every record of the
/// batch: each stored entry is at least as new as what was submitted.
proof fn lemma_batch_dominates(m: Map<u128, RecordModel>, b: Seq<RecordModel>)
    ensures
        forall|i: int| 0 <= i < b.len() ==> dominates(apply_batch(m, b), #[trigger] b[i]),
    decreases b.len(),
{
    if b.len() > 0 {
        lemma_batch_dominates(m, b.drop_last());
        let prev = apply_batch(m, b.drop_last());
        assert forall|i: int| 0 <= i < b.len() implies dominates(
            apply_batch(m, b),
            #[trigger] b[i],
        ) by {
            if i < b.len() - 1 {
                assert(b.drop_last()[i] == b[i]);
                lemma_apply_one_keeps_domination(prev, b.last(), b[i]);
            }
        }
    }
}

/// Reconciling a batch that the store already dominates changes nothing.
proof fn lemma_batch_noop(m: Map<u128, RecordModel>, b: Seq<RecordModel>)
    requires
        forall|i: int| 0 <= i < b.len() ==> dominates(m, #[trigger] b[i]),
    ensures
        apply_batch(m, b) == m,
    decreases b.len(),
{
    if b.len() > 0 {
        assert(forall|i: int|
            0 <= i < b.drop_last().len() ==> dominates(m, #[trigger] b.drop_last()[i]));
        lemma_batch_noop(m, b.drop_last());
        assert(dominates(m, b[b.len() - 1]));
    }
}

/// Reconciliation is idempotent: applying the same batch a second time
/// leaves the store exactly as the first application left it.
pub proof fn lemma_upsert_idempotent(m: Map<u128, RecordModel>, b: Seq<RecordModel>)
    ensures
        apply_batch(apply_batch(m, b), b) == apply_batch(m, b),
{
    lemma_batch_dominates(m, b);
    assert forall|i: int| 0 <= i < b.len() implies dominates(
        apply_batch(m, b),
        #[trigger] b[i],
    ) by {}
    lemma_batch_noop(apply_batch(m, b), b);
}

/// Reconciliation is commutative under the `created_at` ordering: two
/// records sharing an id but carrying different `created_at` values land
/// the same either way round, and the result is just the newer one
/// reconciled alone — so wherever the newer record wins against the store,
/// the store ends up holding it.
pub proof fn lemma_upsert_commutes(m: Map<u128, RecordModel>, r1: RecordModel, r2: RecordModel)
    requires
        r1.id == r2.id,
        r1.created_at != r2.created_at,
    ensures
        apply_one(apply_one(m, r1), r2) == apply_one(apply_one(m, r2), r1),
        apply_one(apply_one(m, r1), r2) == apply_one(
            m,
            if r1.created_at > r2.created_at {
                r1
            } else {
                r2
            },
        ),
        wins(m, if r1.created_at > r2.created_at { r1 } else { r2 }) ==> apply_one(
            apply_one(m, r1),
            r2,
        )[r1.id] == (if r1.created_at > r2.created_at {
            r1
        } else {
            r2
        }),
{
    let g = if r1.created_at > r2.created_at {
        r1
    } else {
        r2
    };
    let l = if r1.created_at > r2.created_at {
        r2
    } else {
        r1
    };
    if wins(m, g) {
        assert(m.insert(g.id, l).insert(g.id, g) =~= m.insert(g.id, g));
        assert(apply_one(apply_one(m, r1), r2) =~= apply_one(m, g));
        assert(apply_one(apply_one(m, r2), r1) =~= apply_one(m, g));
    } else {
        assert(apply_one(apply_one(m, r1), r2) == m);
        assert(apply_one(apply_one(m, r2), r1) == m);
    }
}

/// A submission whose id and `created_at` both match the stored record —
/// whatever its other fields hold — never overwrites: the store is
/// unchanged.
pub proof fn lemma_equal_created_at_skips(m: Map<u128, RecordModel>, r: RecordModel)
    requires
        m.dom().contains(r.id),
        m[r.id].created_at == r.created_at,
    ensures
        apply_one(m, r) == m,
{
}

/// The persistent table of workout records. Its view is the finite map
/// from record id to stored record.
pub struct RecordStore {
    recs: Vec<WorkoutRecord>,
}

impl View for RecordStore {
    type V = Map<u128, RecordModel>;

    closed spec fn view(&self) -> Map<u128, RecordModel> {
        seq_to_map(self.recs@)
    }
}

impl RecordStore {
    /// Well-formedness: no two stored records share an id. Every
    /// constructor establishes it and every method preserves it.
    pub closed spec fn wf(&self) -> bool {
        unique_ids(self.recs@)
    }

    /// An empty store.
    pub fn new() -> (s: RecordStore)
        ensures
            s.wf(),
            s@ == Map::<u128, RecordModel>::empty(),
    {
        RecordStore { recs: Vec::new() }
    }

    /// Position of the record carrying `id`, if one is stored.
    fn find_index(&self, id: u128) -> (r: Option<usize>)
        requires
            self.wf(),
        ensures
            match r {
                Some(j) => j < self.recs@.len() && self.recs@[j as int]@.id == id,
                None => !self@.dom().contains(id),
            },
    {
        let mut i: usize = 0;
        while i < self.recs.len()
            invariant
                0 <= i <= self.recs@.len(),
                forall|j: int| 0 <= j < i ==> #[trigger] self.recs@[j]@.id != id,
            decreases self.recs@.len() - i,
        {
            if self.recs[i].id == id {
                return Some(i);
            }
            i += 1;
        }
        proof {
            lemma_seq_to_map_dom(self.recs@);
        }
        None
    }

    /// The stored record carrying `id`, if any.
    pub fn get(&self, id: u128) -> (r: Option<&WorkoutRecord>)
        requires
            self.wf(),
        ensures
            r is Some <==> self@.dom().contains(id),
            r is Some ==> self@.dom().contains(id) && r->0@ == self@[id],
    {
        proof {
            lemma_seq_to_map_index(self.recs@);
        }
        match self.find_index(id) {
            Some(j) => Some(&self.recs[j]),
            None => None,
        }
    }

    /// Reconciles a batch of submitted records into the store under
    /// last-write-wins: per record, insert if the id is new, replace every
    /// field if the stored record is strictly older, and otherwise discard
    /// the submission silently. Returns one outcome per record, in order.
    pub fn upsert_batch(&mut self, batch: &Vec<WorkoutRecord>) -> (outcomes: Vec<UpsertOutcome>)
        requires
            old(self).wf(),
        ensures
            final(self).wf(),
            final(self)@ == apply_batch(old(self)@, models(batch@)),
            outcomes@.len() == batch@.len(),
            forall|i: int|
                0 <= i < batch@.len() ==> ((#[trigger] outcomes@[i]) == UpsertOutcome::Applied
                    <==> wins(apply_batch(old(self)@, models(batch@).take(i)), batch@[i]@)),
    {
        let ghost m0 = self@;
        let ghost bviews = models(batch@);
        let mut outcomes: Vec<UpsertOutcome> = Vec::new();
        let mut i: usize = 0;
        while i < batch.len()
            invariant
                0 <= i <= batch@.len(),
                bviews == models(batch@),
                bviews.len() == batch@.len(),
                self.wf(),
                self@ == apply_batch(m0, bviews.take(i as int)),
                outcomes@.len() == i,
                forall|j: int|
                    0 <= j < i ==> ((#[trigger] outcomes@[j]) == UpsertOutcome::Applied <==> wins(
                        apply_batch(m0, bviews.take(j)),
                        bviews[j],
                    )),
            decreases batch@.len() - i,
        {
            proof {
                assert(bviews[i as int] == batch@[i as int]@);
                assert(bviews.take(i + 1 as int).drop_last() =~= bviews.take(i as int));
                assert(bviews.take(i + 1 as int).last() == bviews[i as int]);
            }
            let r = &batch[i];
            let ghost pre = self.recs@;
            match self.find_index(r.id) {
                None => {
                    proof {
                        lemma_seq_to_map_dom(pre);
                    }
                    self.recs.push(r.duplicate());
                    outcomes.push(UpsertOutcome::Applied);
                    proof {
                        assert(self.recs@.drop_last() =~= pre);
                        assert(forall|j: int|
                            0 <= j < pre.len() ==> #[trigger] pre[j]@.id != r@.id);
                        assert(unique_ids(self.recs@));
                    }
                },
                Some(j) => {
                    proof {
                        lemma_seq_to_map_index(pre);
                    }
                    if self.recs[j].created_at < r.created_at {
                        self.recs.set(j, r.duplicate());
                        outcomes.push(UpsertOutcome::Applied);
                        proof {
                            lemma_seq_to_map_update(pre, j as int, self.recs@[j as int]);
                            assert(self.recs@ =~= pre.update(j as int, self.recs@[j as int]));
                            assert forall|p: int, q: int|
                                0 <= p < q < self.recs@.len() implies self.recs@[p]@.id
                                != self.recs@[q]@.id by {
                                assert(pre[p]@.id != pre[q]@.id);
                            }
                        }
                    } else {
                        outcomes.push(UpsertOutcome::SkippedConflict);
                        proof {
                            assert(!wins(self@, bviews[i as int]));
                        }
                    }
                },
            }
            i += 1;
        }
        proof {
            assert(bviews.take(batch@.len() as int) =~= bviews);
        }
        outcomes
    }
    /// The `k` stored records nearest to `query`, nearest first, among
    /// those carrying an embedding. Fewer than `k` embedded records — or
    /// none at all — yields a shorter or empty sequence, never an error.
    pub fn nearest(&self, query: &Embedding, k: usize) -> (out: Vec<WorkoutRecord>)
        requires
            self.wf(),
        ensures
            nearest_result(self@, query@, k as int, models(out@)),
    {
        let ghost rs = self.recs@;
        let ghost q = query@;
        // Gather one (distance, position) pair per embedded record.
        let mut cand: Vec<(u64, usize)> = Vec::new();
        let mut i: usize = 0;
        while i < self.recs.len()
            invariant
                self.wf(),
                rs == self.recs@,
                q == query@,
                0 <= i <= rs.len(),
                forall|p: int| 0 <= p < cand@.len() ==> cand_ok(rs, q, #[trigger] cand@[p]),
                forall|p: int, p2: int|
                    0 <= p < p2 < cand@.len() ==> (#[trigger] cand@[p]).1 < (#[trigger] cand@[p2]).1,
                forall|p: int| 0 <= p < cand@.len() ==> (#[trigger] cand@[p]).1 < i,
                forall|j: int|
                    0 <= j < i && (#[trigger] rs[j])@.embedding is Some ==> covers(cand@, j),
            decreases rs.len() - i,
        {
            match &self.recs[i].embedding {
                Some(e) => {
                    let d = crate::embedding::distance(query, e);
                    let ghost pre = cand@;
                    cand.push((d, i));
                    proof {
                        assert forall|j: int|
                            0 <= j < i + 1 && (#[trigger] rs[j])@.embedding is Some implies covers(
                            cand@,
                            j,
                        ) by {
                            if j < i {
                                let p = choose|p: int| 0 <= p < pre.len() && pre[p].1 == j;
                                assert(cand@[p].1 == j);
                            } else {
                                assert(cand@[pre.len() as int].1 == j);
                            }
                        }
                    }
                },
                None => {},
            }
            i += 1;
        }
        // Move the nearest candidates to the front, one selection round per
        // returned record.
        let tmax: usize = if k < cand.len() {
            k
        } else {
            cand.len()
        };
        let n = cand.len();
        let mut t: usize = 0;
        while t < tmax
            invariant
                self.wf(),
                rs == self.recs@,
                q == query@,
                tmax <= k,
                tmax <= n,
                n == cand@.len(),
                tmax == if (k as int) < cand@.len() as int { k as int } else { cand@.len() as int },
                0 <= t <= tmax,
                forall|p: int| 0 <= p < cand@.len() ==> cand_ok(rs, q, #[trigger] cand@[p]),
                forall|p: int, p2: int|
                    0 <= p < p2 < cand@.len() ==> (#[trigger] cand@[p]).1 != (#[trigger] cand@[p2]).1,
                forall|j: int| 0 <= j < rs.len() && (#[trigger] rs[j])@.embedding is Some
                    ==> covers(cand@, j),
                forall|a: int, b: int|
                    0 <= a < b < t ==> (#[trigger] cand@[a]).0 <= (#[trigger] cand@[b]).0,
                forall|a: int, b: int|
                    0 <= a < t <= b < cand@.len() ==> (#[trigger] cand@[a]).0
                        <= (#[trigger] cand@[b]).0,
            decreases tmax - t,
        {
            let mut mi: usize = t;
            let mut j: usize = t + 1;
            while j < n
                invariant
                    n == cand@.len(),
                    t <= mi < j <= n,
                    forall|p: int|
                        t <= p < j ==> (#[trigger] cand@[mi as int]).0 <= (#[trigger] cand@[p]).0,
                decreases n - j,
            {
                if cand[j].0 < cand[mi].0 {
                    mi = j;
                }
                j += 1;
            }
            let ghost pre = cand@;
            let ct = cand[t];
            let cm = cand[mi];
            cand.set(t, cm);
            cand.set(mi, ct);
            proof {
                assert(cand@ == pre.update(t as int, cm).update(mi as int, ct));
                assert forall|p: int, p2: int|
                    0 <= p < p2 < cand@.len() implies (#[trigger] cand@[p]).1
                    != (#[trigger] cand@[p2]).1 by {
                    let o1: int = if p == t as int { mi as int } else if p == mi as int { t as int } else { p };
                    let o2: int = if p2 == t as int { mi as int } else if p2 == mi as int { t as int } else { p2 };
                    assert(cand@[p] == pre[o1]);
                    assert(cand@[p2] == pre[o2]);
                }
                assert forall|j2: int|
                    0 <= j2 < rs.len() && (#[trigger] rs[j2])@.embedding is Some implies covers(
                    cand@,
                    j2,
                ) by {
                    let p = choose|p: int| 0 <= p < pre.len() && pre[p].1 == j2;
                    if p == t as int {
                        assert(cand@[mi as int].1 == j2);
                    } else if p == mi as int {
                        assert(cand@[t as int].1 == j2);
                    } else {
                        assert(cand@[p].1 == j2);
                    }
                }
            }
            t += 1;
        }
        // Copy out the selected prefix.
        let mut out: Vec<WorkoutRecord> = Vec::new();
        let mut p: usize = 0;
        while p < tmax
            invariant
                self.wf(),
                rs == self.recs@,
                q == query@,
                tmax <= k,
                tmax <= cand@.len(),
                0 <= p <= tmax,
                out@.len() == p,
                forall|a: int| 0 <= a < cand@.len() ==> cand_ok(rs, q, #[trigger] cand@[a]),
                forall|a: int| 0 <= a < p ==> (#[trigger] out@[a])@ == rs[cand@[a].1 as int]@,
            decreases tmax - p,
        {
            let idx = cand[p].1;
            out.push(self.recs[idx].duplicate());
            p += 1;
        }
        proof {
            lemma_seq_to_map_index(rs);
            lemma_seq_to_map_dom(rs);
            let outm = models(out@);
            assert forall|a: int| 0 <= a < outm.len() implies {
                &&& self@.dom().contains((#[trigger] outm[a]).id)
                &&& self@[outm[a].id] == outm[a]
                &&& outm[a].embedding is Some
            } by {
                assert(outm[a] == rs[cand@[a].1 as int]@);
            }
            assert forall|a: int, b: int| 0 <= a < b < outm.len() implies (#[trigger] outm[a]).id
                != (#[trigger] outm[b]).id by {
                let ia = cand@[a].1 as int;
                let ib = cand@[b].1 as int;
                assert(ia != ib);
                if ia < ib {
                    assert(rs[ia]@.id != rs[ib]@.id);
                } else {
                    assert(rs[ib]@.id != rs[ia]@.id);
                }
            }
            assert forall|id: u128|
                #[trigger] self@.dom().contains(id) && self@[id].embedding is Some implies (exists|a: int|
                0 <= a < outm.len() && (#[trigger] outm[a]).id == id) || (outm.len() == k
                && forall|a: int|
                0 <= a < outm.len() ==> sq_dist(q, (#[trigger] outm[a]).embedding->0) <= sq_dist(
                    q,
                    self@[id].embedding->0,
                )) by {
                let j = choose|j: int| 0 <= j < rs.len() && #[trigger] rs[j]@.id == id;
                assert(self@[id] == rs[j]@);
                let p2 = choose|p2: int| 0 <= p2 < cand@.len() && cand@[p2].1 == j;
                if p2 < tmax as int {
                    assert(outm[p2] == rs[cand@[p2].1 as int]@);
                    assert(outm[p2].id == id);
                } else {
                    assert(cand@.len() > tmax as int);
                    assert(tmax == k);
                    assert forall|a: int|
                        0 <= a < outm.len() implies sq_dist(
                        q,
                        (#[trigger] outm[a]).embedding->0,
                    ) <= sq_dist(q, self@[id].embedding->0) by {
                        assert(cand@[a].0 <= cand@[p2].0);
                        assert(outm[a] == rs[cand@[a].1 as int]@);
                        assert(cand@[p2].0 == sq_dist(q, rs[j]@.embedding->0));
                    }
                }
            }
        }
        out
    }
}

/// What `nearest` promises of its result: every returned record is stored
/// and carries an embedding; results come nearest-first without repeated
/// ids; at most `k` records come back; and an embedded stored record is
/// only left out when `k` results at least as near were returned — so with
/// fewer than `k` embedded records stored, all of them come back.
pub open spec fn nearest_result(
    m: Map<u128, RecordModel>,
    q: Seq<i64>,
    k: int,
    out: Seq<RecordModel>,
) -> bool {
    &&& out.len() <= k
    &&& forall|i: int|
        0 <= i < out.len() ==> {
            &&& m.dom().contains((#[trigger] out[i]).id)
            &&& m[out[i].id] == out[i]
            &&& out[i].embedding is Some
        }
    &&& forall|i: int, j: int| 0 <= i < j < out.len() ==> (#[trigger] out[i]).id != (#[trigger] out[j]).id
    &&& forall|i: int, j: int|
        0 <= i < j < out.len() ==> sq_dist(q, (#[trigger] out[i]).embedding->0) <= sq_dist(
            q,
            (#[trigger] out[j]).embedding->0,
        )
    &&& forall|id: u128|
        #[trigger] m.dom().contains(id) && m[id].embedding is Some ==> (exists|i: int|
            0 <= i < out.len() && (#[trigger] out[i]).id == id) || (out.len() == k && forall|i: int|
            0 <= i < out.len() ==> sq_dist(q, (#[trigger] out[i]).embedding->0) <= sq_dist(
                q,
                m[id].embedding->0,
            ))
}

/// The candidate pair holds the position of an embedded stored record and
/// its distance to the query.
spec fn cand_ok(recs: Seq<WorkoutRecord>, q: Seq<i64>, c: (u64, usize)) -> bool {
    &&& (c.1 as int) < recs.len()
    &&& recs[c.1 as int]@.embedding is Some
    &&& c.0 == sq_dist(q, recs[c.1 as int]@.embedding->0)
}

/// Some candidate pair points at position `j`.
spec fn covers(cand: Seq<(u64, usize)>, j: int) -> bool {
    exists|p: int| 0 <= p < cand.len() && (#[trigger] cand[p]).1 == j
}

} // verus!
