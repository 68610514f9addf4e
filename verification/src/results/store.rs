//! The buffered result sets, by id, and which execution each belongs to
//! (rows never cross IPC as JSON; the frontend fetches windows by id).

use crate::error::{is_internal_error, AppError};
use crate::results::buffer::ResultSetBuffer;
use crate::text::{dec_digits, extend_chars, extend_str, owned, str_eq, string_of, u64_dec};
use vstd::prelude::*;

verus! {

pub struct ResultStore {
    next_id: u64,
    /// Execution id -> its result-set ids, in creation order.
    executions: Vec<(String, Vec<u64>)>,
    /// The result sets still held, with their ids.
    held: Vec<(u64, ResultSetBuffer)>,
}

/// The ids of held result sets, in holding order.
pub open spec fn ids_of(h: Seq<(u64, ResultSetBuffer)>) -> Seq<u64> {
    h.map_values(|p: (u64, ResultSetBuffer)| p.0)
}

pub open spec fn distinct_ids(s: Seq<u64>) -> bool {
    forall|i: int, j: int| 0 <= i < j < s.len() ==> s[i] != s[j]
}

/// No two executions share an id.
spec fn keys_unique(ex: Seq<(String, Vec<u64>)>) -> bool {
    forall|a: int, b: int| 0 <= a < b < ex.len() ==> (#[trigger] ex[a]).0@ != (#[trigger] ex[b]).0@
}

/// The result-set ids registered under an execution id, in creation order
/// (none when it has no entry).
spec fn exec_ids(ex: Seq<(String, Vec<u64>)>, eid: Seq<char>) -> Seq<u64> {
    if exists|i: int| 0 <= i < ex.len() && (#[trigger] ex[i]).0@ == eid {
        ex[choose|i: int| 0 <= i < ex.len() && (#[trigger] ex[i]).0@ == eid].1@
    } else {
        Seq::empty()
    }
}

proof fn lemma_exec_ids_at(ex: Seq<(String, Vec<u64>)>, eid: Seq<char>, i: int)
    requires
        keys_unique(ex),
        0 <= i < ex.len(),
        ex[i].0@ == eid,
    ensures
        exec_ids(ex, eid) == ex[i].1@,
{
    let j = choose|j: int| 0 <= j < ex.len() && (#[trigger] ex[j]).0@ == eid;
    assert(0 <= j < ex.len() && ex[j].0@ == eid);
    if j < i {
        assert(ex[j].0@ != ex[i].0@);
    } else if i < j {
        assert(ex[i].0@ != ex[j].0@);
    }
}

proof fn lemma_exec_ids_absent(ex: Seq<(String, Vec<u64>)>, eid: Seq<char>)
    requires
        forall|i: int| 0 <= i < ex.len() ==> (#[trigger] ex[i]).0@ != eid,
    ensures
        exec_ids(ex, eid) == Seq::<u64>::empty(),
{
}

/// A held list as a map from id to buffer.
spec fn held_map(h: Seq<(u64, ResultSetBuffer)>) -> Map<u64, ResultSetBuffer> {
    Map::new(|id: u64| ids_of(h).contains(id), |id: u64| h[ids_of(h).index_of(id)].1)
}

/// With distinct ids, an id is found at the one position that holds it.
proof fn lemma_index_unique(h: Seq<(u64, ResultSetBuffer)>, i: int)
    requires
        distinct_ids(ids_of(h)),
        0 <= i < h.len(),
    ensures
        ids_of(h).contains(h[i].0),
        ids_of(h).index_of(h[i].0) == i,
        held_map(h).contains_key(h[i].0),
        held_map(h)[h[i].0] == h[i].1,
{
    let ids = ids_of(h);
    assert(ids[i] == h[i].0);
    assert(ids.contains(h[i].0));
    let j = ids.index_of(h[i].0);
    assert(0 <= j < ids.len() && ids[j] == h[i].0);
    if j != i {
        if j < i {
            assert(ids[j] != ids[i]);
        } else {
            assert(ids[i] != ids[j]);
        }
    }
}

proof fn lemma_held_push(h: Seq<(u64, ResultSetBuffer)>, id: u64, b: ResultSetBuffer)
    requires
        distinct_ids(ids_of(h.push((id, b)))),
    ensures
        held_map(h.push((id, b))) == held_map(h).insert(id, b),
{
    let g = h.push((id, b));
    assert(ids_of(g) =~= ids_of(h).push(id));
    assert(distinct_ids(ids_of(h))) by {
        assert forall|i: int, j: int| 0 <= i < j < ids_of(h).len() implies ids_of(h)[i] != ids_of(h)[j] by {
            assert(ids_of(h)[i] == ids_of(g)[i]);
            assert(ids_of(h)[j] == ids_of(g)[j]);
        }
    }
    assert forall|x: u64| #[trigger] held_map(g).contains_key(x) <==> held_map(h).insert(id, b).contains_key(x) by {
        if ids_of(g).contains(x) && x != id {
            let k = choose|k: int| 0 <= k < ids_of(g).len() && ids_of(g)[k] == x;
            assert(k < h.len());
            assert(ids_of(h)[k] == x);
        }
        if ids_of(h).contains(x) {
            let k = choose|k: int| 0 <= k < ids_of(h).len() && ids_of(h)[k] == x;
            assert(ids_of(g)[k] == x);
        }
        if x == id {
            assert(ids_of(g)[h.len() as int] == x);
        }
    }
    assert forall|x: u64| #[trigger] held_map(g).contains_key(x) implies held_map(g)[x] == held_map(h).insert(id, b)[x] by {
        let k = choose|k: int| 0 <= k < ids_of(g).len() && ids_of(g)[k] == x;
        assert(ids_of(g)[k] == g[k].0);
        lemma_index_unique(g, k);
        let n = h.len() as int;
        assert(ids_of(g)[n] == id);
        if x == id {
            if k != n {
                if k < n {
                    assert(ids_of(g)[k] != ids_of(g)[n]);
                }
            }
            assert(g[k] == (id, b));
        } else {
            assert(k != n);
            assert(g[k] == h[k]);
            assert(ids_of(h)[k] == h[k].0);
            lemma_index_unique(h, k);
        }
    }
    assert(held_map(g) =~= held_map(h).insert(id, b));
}

impl ResultStore {
    spec fn live(&self) -> Seq<u64> {
        ids_of(self.held@)
    }

    pub closed spec fn wf(&self) -> bool {
        &&& self.next_id >= 1
        &&& forall|i: int| 0 <= i < self.live().len() ==> (#[trigger] self.live()[i]) < self.next_id
        &&& distinct_ids(self.live())
        &&& forall|a: int, b: int| 0 <= a < b < self.executions@.len() ==> (#[trigger] self.executions@[a]).0@
            != (#[trigger] self.executions@[b]).0@
        &&& forall|a: int, k: int| 0 <= a < self.executions@.len() && 0 <= k < self.executions@[a].1@.len()
            ==> self.live().contains(#[trigger] self.executions@[a].1@[k])
        &&& forall|a: int, b: int, k: int, l: int|
            0 <= a < self.executions@.len() && 0 <= b < self.executions@.len() && a != b && 0 <= k
                < self.executions@[a].1@.len() && 0 <= l < self.executions@[b].1@.len() ==> #[trigger] self.executions@[a].1@[k]
                != #[trigger] self.executions@[b].1@[l]
    }

    /// The ids still held.
    pub closed spec fn spec_live(&self) -> Set<u64> {
        self.live().to_set()
    }

    /// The ids of the result sets an execution has held, in creation order.
    pub closed spec fn spec_execution(&self, execution_id: Seq<char>) -> Seq<u64> {
        exec_ids(self.executions@, execution_id)
    }

    /// The held result sets by id.
    pub closed spec fn spec_held(&self) -> Map<u64, ResultSetBuffer> {
        held_map(self.held@)
    }

    /// The next id to hand out (every id handed out so far is below it).
    pub closed spec fn spec_next_id(&self) -> u64 {
        self.next_id
    }

    pub fn new() -> (r: Self)
        ensures
            r.wf(),
            r.spec_live() == Set::<u64>::empty(),
            r.spec_held() == Map::<u64, ResultSetBuffer>::empty(),
            r.spec_next_id() == 1,
            forall|e: Seq<char>| #[trigger] r.spec_execution(e) == Seq::<u64>::empty(),
    {
        let r = ResultStore { next_id: 1, executions: Vec::new(), held: Vec::new() };
        assert(r.live() =~= Seq::<u64>::empty());
        assert(r.live().to_set() =~= Set::<u64>::empty());
        assert(r.spec_held() =~= Map::<u64, ResultSetBuffer>::empty());
        r
    }

    /// The id the next result set will get.
    pub fn next_id(&self) -> (r: u64)
        ensures
            r == self.spec_next_id(),
    {
        self.next_id
    }

    fn find_execution(&self, execution_id: &str) -> (r: Option<usize>)
        ensures
            match r {
                Some(i) => i < self.executions@.len() && self.executions@[i as int].0@ == execution_id@,
                None => forall|i: int| 0 <= i < self.executions@.len() ==> (#[trigger] self.executions@[i]).0@ != execution_id@,
            },
    {
        let mut i: usize = 0;
        while i < self.executions.len()
            invariant
                i <= self.executions@.len(),
                forall|k: int| 0 <= k < i ==> (#[trigger] self.executions@[k]).0@ != execution_id@,
            decreases self.executions@.len() - i,
        {
            if str_eq(self.executions[i].0.as_str(), execution_id) {
                return Some(i);
            }
            i += 1;
        }
        None
    }

    /// Holds a new result set of an execution under a fresh id, never
    /// handed out before.
    pub fn insert(&mut self, execution_id: &str, buffer: ResultSetBuffer) -> (r: u64)
        requires
            old(self).wf(),
            old(self).spec_next_id() < u64::MAX,
        ensures
            final(self).wf(),
            r == old(self).spec_next_id(),
            !old(self).spec_live().contains(r),
            final(self).spec_live() == old(self).spec_live().insert(r),
            final(self).spec_held() == old(self).spec_held().insert(r, buffer),
            final(self).spec_next_id() == old(self).spec_next_id() + 1,
            final(self).spec_execution(execution_id@) == old(self).spec_execution(execution_id@).push(r),
            forall|e: Seq<char>| e != execution_id@ ==> #[trigger] final(self).spec_execution(e) == old(self).spec_execution(e),
    {
        let ghost old_held = self.spec_held();
        let ghost old_pairs = self.held@;
        let id = self.next_id;
        let ghost old_live = self.live();
        assert(!old_live.contains(id)) by {
            if old_live.contains(id) {
                let k = choose|k: int| 0 <= k < old_live.len() && old_live[k] == id;
                assert(old_live[k] < self.next_id);
            }
        }
        self.next_id = self.next_id + 1;
        self.held.push((id, buffer));
        assert(self.live() =~= old_live.push(id));
        proof {
            lemma_held_push(old_pairs, id, buffer);
        }
        assert(self.live().to_set() =~= old_live.to_set().insert(id)) by {
            assert forall|x: u64| self.live().contains(x) <==> old_live.contains(x) || x == id by {
                if self.live().contains(x) {
                    let k = choose|k: int| 0 <= k < self.live().len() && self.live()[k] == x;
                    if k < old_live.len() {
                        assert(old_live[k] == x);
                    }
                }
                if old_live.contains(x) {
                    let k = choose|k: int| 0 <= k < old_live.len() && old_live[k] == x;
                    assert(self.live()[k] == x);
                }
                if x == id {
                    assert(self.live()[old_live.len() as int] == x);
                }
            }
        }
        match self.find_execution(execution_id) {
            Some(i) => {
                let ghost before = self.executions@;
                let mut entry = self.executions.remove(i);
                entry.1.push(id);
                self.executions.insert(i, entry);
                proof {
                    assert(self.executions@ =~= before.update(i as int, self.executions@[i as int]));
                    let after = self.executions@;
                    let eid = execution_id@;
                    assert(keys_unique(before));
                    assert(keys_unique(after)) by {
                        assert forall|a: int, b: int| 0 <= a < b < after.len() implies (#[trigger] after[a]).0@ != (#[trigger] after[b]).0@ by {
                            assert(after[a].0@ == before[a].0@);
                            assert(after[b].0@ == before[b].0@);
                        }
                    }
                    lemma_exec_ids_at(before, eid, i as int);
                    lemma_exec_ids_at(after, eid, i as int);
                    assert forall|e: Seq<char>| e != eid implies #[trigger] exec_ids(after, e) == exec_ids(before, e) by {
                        if exists|j: int| 0 <= j < before.len() && (#[trigger] before[j]).0@ == e {
                            let j = choose|j: int| 0 <= j < before.len() && (#[trigger] before[j]).0@ == e;
                            lemma_exec_ids_at(before, e, j);
                            assert(after[j] == before[j]);
                            lemma_exec_ids_at(after, e, j);
                        } else {
                            assert forall|k: int| 0 <= k < after.len() implies (#[trigger] after[k]).0@ != e by {
                                assert(after[k].0@ == before[k].0@);
                            }
                            lemma_exec_ids_absent(after, e);
                            lemma_exec_ids_absent(before, e);
                        }
                    }
                    assert forall|a: int, b: int, k: int, l: int|
                        0 <= a < self.executions@.len() && 0 <= b < self.executions@.len() && a != b && 0 <= k
                            < self.executions@[a].1@.len() && 0 <= l < self.executions@[b].1@.len() implies #[trigger] self.executions@[a].1@[k]
                            != #[trigger] self.executions@[b].1@[l] by {
                        let ea = self.executions@[a].1@;
                        let eb = self.executions@[b].1@;
                        if a == i && k == ea.len() - 1 {
                            assert(eb[l] == before[b].1@[l]);
                            assert(old_live.contains(eb[l]));
                        } else if b == i && l == eb.len() - 1 {
                            assert(ea[k] == before[a].1@[k]);
                            assert(old_live.contains(ea[k]));
                        } else {
                            assert(ea[k] == before[a].1@[k]);
                            assert(eb[l] == before[b].1@[l]);
                        }
                    }
                    assert forall|a: int, k: int| 0 <= a < self.executions@.len() && 0 <= k < self.executions@[a].1@.len()
                        implies self.live().contains(#[trigger] self.executions@[a].1@[k]) by {
                        let x = self.executions@[a].1@[k];
                        if a == i && k == self.executions@[a].1@.len() - 1 {
                            assert(self.live()[old_live.len() as int] == x);
                        } else {
                            assert(x == before[a].1@[k]);
                            assert(old_live.contains(x));
                            let j = choose|j: int| 0 <= j < old_live.len() && old_live[j] == x;
                            assert(self.live()[j] == x);
                        }
                    }
                }
            },
            None => {
                let ghost before = self.executions@;
                let mut ids: Vec<u64> = Vec::new();
                ids.push(id);
                self.executions.push((owned(execution_id), ids));
                proof {
                    let after = self.executions@;
                    let eid = execution_id@;
                    let n = before.len() as int;
                    assert(after[n].0@ == eid);
                    assert(after[n].1@ =~= Seq::<u64>::empty().push(id));
                    assert(keys_unique(before));
                    assert(keys_unique(after)) by {
                        assert forall|a: int, b: int| 0 <= a < b < after.len() implies (#[trigger] after[a]).0@ != (#[trigger] after[b]).0@ by {
                            if b == n {
                                assert(after[a] == before[a]);
                            } else {
                                assert(after[a] == before[a]);
                                assert(after[b] == before[b]);
                            }
                        }
                    }
                    lemma_exec_ids_absent(before, eid);
                    lemma_exec_ids_at(after, eid, n);
                    assert forall|e: Seq<char>| e != eid implies #[trigger] exec_ids(after, e) == exec_ids(before, e) by {
                        if exists|j: int| 0 <= j < before.len() && (#[trigger] before[j]).0@ == e {
                            let j = choose|j: int| 0 <= j < before.len() && (#[trigger] before[j]).0@ == e;
                            lemma_exec_ids_at(before, e, j);
                            assert(after[j] == before[j]);
                            lemma_exec_ids_at(after, e, j);
                        } else {
                            assert forall|k: int| 0 <= k < after.len() implies (#[trigger] after[k]).0@ != e by {
                                if k < n {
                                    assert(after[k] == before[k]);
                                }
                            }
                            lemma_exec_ids_absent(after, e);
                            lemma_exec_ids_absent(before, e);
                        }
                    }
                    assert forall|a: int, b: int, k: int, l: int|
                        0 <= a < self.executions@.len() && 0 <= b < self.executions@.len() && a != b && 0 <= k
                            < self.executions@[a].1@.len() && 0 <= l < self.executions@[b].1@.len() implies #[trigger] self.executions@[a].1@[k]
                            != #[trigger] self.executions@[b].1@[l] by {
                        if a == before.len() {
                            assert(self.executions@[b].1@[l] == before[b].1@[l]);
                            assert(old_live.contains(before[b].1@[l]));
                        } else if b == before.len() {
                            assert(self.executions@[a].1@[k] == before[a].1@[k]);
                            assert(old_live.contains(before[a].1@[k]));
                        } else {
                            assert(self.executions@[a] == before[a]);
                            assert(self.executions@[b] == before[b]);
                        }
                    }
                    assert forall|a: int, k: int| 0 <= a < self.executions@.len() && 0 <= k < self.executions@[a].1@.len()
                        implies self.live().contains(#[trigger] self.executions@[a].1@[k]) by {
                        let x = self.executions@[a].1@[k];
                        if a == before.len() {
                            assert(self.live()[old_live.len() as int] == x);
                        } else {
                            assert(x == before[a].1@[k]);
                            assert(old_live.contains(x));
                            let j = choose|j: int| 0 <= j < old_live.len() && old_live[j] == x;
                            assert(self.live()[j] == x);
                        }
                    }
                }
            },
        }
        id
    }

    fn find_held(&self, id: u64) -> (r: Option<usize>)
        ensures
            match r {
                Some(i) => i < self.held@.len() && self.held@[i as int].0 == id,
                None => !self.live().contains(id),
            },
    {
        let mut i: usize = 0;
        while i < self.held.len()
            invariant
                i <= self.held@.len(),
                forall|k: int| 0 <= k < i ==> self.live()[k] != id,
            decreases self.held@.len() - i,
        {
            if self.held[i].0 == id {
                return Some(i);
            }
            assert(self.live()[i as int] == self.held@[i as int].0);
            i += 1;
        }
        None
    }

    /// Whether a result set is still held.
    pub fn contains(&self, id: u64) -> (r: bool)
        ensures
            r == self.spec_live().contains(id),
            r == self.spec_held().contains_key(id),
    {
        match self.find_held(id) {
            Some(i) => {
                assert(self.live()[i as int] == id);
                true
            },
            None => false,
        }
    }

    /// A held result set, or the error for one already released.
    pub fn get(&self, id: u64) -> (r: Result<&ResultSetBuffer, AppError>)
        requires
            self.wf(),
        ensures
            match r {
                Ok(b) => self.spec_held().contains_key(id) && *b == self.spec_held()[id],
                Err(e) => !self.spec_held().contains_key(id) && is_internal_error(
                    e,
                    "result set "@ + dec_digits(id as nat) + " released"@,
                ),
            },
    {
        match self.find_held(id) {
            Some(i) => {
                proof {
                    lemma_index_unique(self.held@, i as int);
                }
                Ok(&self.held[i].1)
            },
            None => Err(released_error(id)),
        }
    }

    /// A held result set, to change in place (rows streaming in, a sort).
    pub fn get_mut(&mut self, id: u64) -> (r: &mut ResultSetBuffer)
        requires
            old(self).wf(),
            old(self).spec_held().contains_key(id),
        ensures
            *r == old(self).spec_held()[id],
            final(self).wf(),
            final(self).spec_next_id() == old(self).spec_next_id(),
            final(self).spec_live() == old(self).spec_live(),
            final(self).spec_held() == old(self).spec_held().insert(id, *final(r)),
            forall|e: Seq<char>| #[trigger] final(self).spec_execution(e) == old(self).spec_execution(e),
    {
        let ghost h = self.held@;
        let i = match self.find_held(id) {
            Some(i) => i,
            None => {
                proof {
                    assert(false);
                }
                0
            },
        };
        proof {
            lemma_index_unique(h, i as int);
            lemma_held_replace(h, i as int);
        }
        &mut self.held[i].1
    }

    /// Releases every result set of an execution (on re-run or tab close):
    /// returns their ids, which are no longer held; the others stay as
    /// they were.
    pub fn release_execution(&mut self, execution_id: &str) -> (r: Vec<u64>)
        requires
            old(self).wf(),
        ensures
            final(self).wf(),
            final(self).spec_next_id() == old(self).spec_next_id(),
            forall|i: int| 0 <= i < r@.len() ==> old(self).spec_live().contains(#[trigger] r@[i]),
            final(self).spec_live() == old(self).spec_live().difference(r@.to_set()),
            final(self).spec_held() == old(self).spec_held().remove_keys(r@.to_set()),
            r@ == old(self).spec_execution(execution_id@),
            final(self).spec_execution(execution_id@) == Seq::<u64>::empty(),
            forall|e: Seq<char>| e != execution_id@ ==> #[trigger] final(self).spec_execution(e) == old(self).spec_execution(e),
    {
        match self.find_execution(execution_id) {
            None => {
                assert(self.live().to_set().difference(Seq::<u64>::empty().to_set()) =~= self.live().to_set());
                assert(self.spec_held().remove_keys(Seq::<u64>::empty().to_set()) =~= self.spec_held());
                Vec::new()
            },
            Some(i) => {
                let ghost before_exec = self.executions@;
                let entry = self.executions.remove(i);
                let ids = entry.1;
                let ghost old_pairs = self.held@;
                let ghost old_live = self.live();
                let n = self.held.len();
                let mut rest: Vec<(u64, ResultSetBuffer)> = Vec::new();
                std::mem::swap(&mut rest, &mut self.held);
                let mut kept: Vec<(u64, ResultSetBuffer)> = Vec::new();
                let mut k: usize = 0;
                while rest.len() > 0
                    invariant
                        k + rest@.len() == old_pairs.len(),
                        old_pairs.len() == n,
                        rest@ == old_pairs.subrange(k as int, old_pairs.len() as int),
                        kept@ == drop_ids(old_pairs.take(k as int), ids@),
                    decreases rest@.len(),
                {
                    let p = rest.remove(0);
                    let mut hit = false;
                    let mut j: usize = 0;
                    while j < ids.len()
                        invariant
                            j <= ids@.len(),
                            hit == ids@.take(j as int).contains(p.0),
                        decreases ids@.len() - j,
                    {
                        let ghost before = ids@.take(j as int);
                        assert(ids@.take(j + 1) =~= before.push(ids@[j as int]));
                        if ids[j] == p.0 {
                            hit = true;
                            assert(ids@.take(j + 1)[j as int] == p.0);
                        }
                        proof {
                            if before.contains(p.0) {
                                let w = choose|w: int| 0 <= w < before.len() && before[w] == p.0;
                                assert(ids@.take(j + 1)[w] == p.0);
                            }
                            let after = ids@.take(j + 1);
                            if after.contains(p.0) {
                                let w = choose|w: int| 0 <= w < after.len() && after[w] == p.0;
                                if w < j {
                                    assert(before[w] == p.0);
                                }
                            }
                        }
                        j += 1;
                    }
                    assert(ids@.take(ids@.len() as int) =~= ids@);
                    assert(old_pairs.take(k + 1).drop_last() =~= old_pairs.take(k as int));
                    assert(old_pairs.take(k + 1).last() == p);
                    if !hit {
                        kept.push(p);
                    }
                    k += 1;
                }
                assert(old_pairs.take(old_pairs.len() as int) =~= old_pairs);
                self.held = kept;
                proof {
                    lemma_drop_ids(old_pairs, ids@);
                    lemma_held_drop(old_pairs, ids@);
                    assert forall|x: u64| self.live().contains(x) <==> old_live.contains(x) && !ids@.contains(x) by {}
                    assert(self.live().to_set() =~= old_live.to_set().difference(ids@.to_set()));
                    assert forall|t: int| 0 <= t < ids@.len() implies old_live.contains(#[trigger] ids@[t]) by {
                        assert(ids@[t] == before_exec[i as int].1@[t]);
                    }
                    assert forall|a: int, t: int| 0 <= a < self.executions@.len() && 0 <= t < self.executions@[a].1@.len()
                        implies self.live().contains(#[trigger] self.executions@[a].1@[t]) by {
                        let a2 = if a < i { a } else { a + 1 };
                        assert(self.executions@[a] == before_exec[a2]);
                        let x = before_exec[a2].1@[t];
                        assert(old_live.contains(x));
                        if ids@.contains(x) {
                            let s = choose|s: int| 0 <= s < ids@.len() && ids@[s] == x;
                            assert(before_exec[i as int].1@[s] == x);
                            assert(a2 != i);
                        }
                    }
                    assert forall|t: int| 0 <= t < self.live().len() implies (#[trigger] self.live()[t]) < self.next_id by {
                        assert(self.live().contains(self.live()[t]));
                        let j = choose|j: int| 0 <= j < old_live.len() && old_live[j] == self.live()[t];
                    }
                }
                proof {
                    let after = self.executions@;
                    let before = before_exec;
                    let eid = execution_id@;
                    assert(after =~= before.remove(i as int));
                    assert(keys_unique(before));
                    assert(keys_unique(after)) by {
                        assert forall|a: int, b: int| 0 <= a < b < after.len() implies (#[trigger] after[a]).0@ != (#[trigger] after[b]).0@ by {
                            let a2 = if a < i { a } else { a + 1 };
                            let b2 = if b < i { b } else { b + 1 };
                            assert(after[a] == before[a2]);
                            assert(after[b] == before[b2]);
                        }
                    }
                    assert forall|e: Seq<char>| e != eid implies #[trigger] exec_ids(after, e) == exec_ids(before, e) by {
                        if exists|j: int| 0 <= j < before.len() && (#[trigger] before[j]).0@ == e {
                            let j = choose|j: int| 0 <= j < before.len() && (#[trigger] before[j]).0@ == e;
                            lemma_exec_ids_at(before, e, j);
                            assert(j != i);
                            let j2 = if j < i { j } else { j - 1 };
                            assert(after[j2] == before[j]);
                            lemma_exec_ids_at(after, e, j2);
                        } else {
                            assert forall|k: int| 0 <= k < after.len() implies (#[trigger] after[k]).0@ != e by {
                                let k2 = if k < i { k } else { k + 1 };
                                assert(after[k] == before[k2]);
                            }
                            lemma_exec_ids_absent(after, e);
                            lemma_exec_ids_absent(before, e);
                        }
                    }
                }
                ids
            },
        }
    }
}

/// A result set reads back as it was stored: after `insert` holds `buffer`
/// under `id`, `get(id)` hands out that buffer and every other held result
/// set reads as before.
pub proof fn lemma_insert_reads_back(before: ResultStore, after: ResultStore, id: u64, buffer: ResultSetBuffer)
    requires
        !before.spec_live().contains(id),
        after.spec_held() == before.spec_held().insert(id, buffer),
    ensures
        after.spec_held().contains_key(id),
        after.spec_held()[id] == buffer,
        forall|other: u64| #[trigger] before.spec_held().contains_key(other) ==> other != id && after.spec_held()[other]
            == before.spec_held()[other],
{
    assert forall|other: u64| #[trigger] before.spec_held().contains_key(other) implies other != id by {
        assert(before.live().contains(other));
        assert(before.spec_live().contains(other));
    }
}

/// Every result set an execution holds is live and belongs to no other
/// execution: releasing one execution never drops another's result sets.
pub proof fn lemma_executions_own_their_ids(store: ResultStore, e1: Seq<char>, e2: Seq<char>)
    requires
        store.wf(),
        e1 != e2,
    ensures
        forall|k: int| 0 <= k < store.spec_execution(e1).len() ==> store.spec_live().contains(
            #[trigger] store.spec_execution(e1)[k],
        ) && !store.spec_execution(e2).contains(store.spec_execution(e1)[k]),
{
    let ex = store.executions@;
    if exists|a: int| 0 <= a < ex.len() && (#[trigger] ex[a]).0@ == e1 {
        let a = choose|a: int| 0 <= a < ex.len() && (#[trigger] ex[a]).0@ == e1;
        lemma_exec_ids_at(ex, e1, a);
        if exists|b: int| 0 <= b < ex.len() && (#[trigger] ex[b]).0@ == e2 {
            let b = choose|b: int| 0 <= b < ex.len() && (#[trigger] ex[b]).0@ == e2;
            lemma_exec_ids_at(ex, e2, b);
            assert forall|k: int| 0 <= k < ex[a].1@.len() implies store.spec_live().contains(#[trigger] ex[a].1@[k])
                && !ex[b].1@.contains(ex[a].1@[k]) by {
                assert(store.live().contains(ex[a].1@[k]));
                if ex[b].1@.contains(ex[a].1@[k]) {
                    let l = choose|l: int| 0 <= l < ex[b].1@.len() && ex[b].1@[l] == ex[a].1@[k];
                    assert(ex[a].1@[k] != ex[b].1@[l]);
                }
            }
        } else {
            lemma_exec_ids_absent(ex, e2);
            assert forall|k: int| 0 <= k < ex[a].1@.len() implies store.spec_live().contains(#[trigger] ex[a].1@[k]) by {
                assert(store.live().contains(ex[a].1@[k]));
            }
        }
    } else {
        lemma_exec_ids_absent(ex, e1);
    }
}

/// Releasing an execution leaves every result set it does not own as it
/// was, and those it owned read as released.
pub proof fn lemma_release_keeps_others(before: ResultStore, after: ResultStore, released: Seq<u64>)
    requires
        after.spec_held() == before.spec_held().remove_keys(released.to_set()),
    ensures
        forall|id: u64| #[trigger] after.spec_held().contains_key(id) <==> before.spec_held().contains_key(id) && !released.contains(id),
        forall|id: u64| #[trigger] after.spec_held().contains_key(id) ==> after.spec_held()[id] == before.spec_held()[id],
{
}

fn released_error(id: u64) -> (e: AppError)
    ensures
        is_internal_error(e, "result set "@ + dec_digits(id as nat) + " released"@),
{
    let mut v: Vec<char> = Vec::new();
    extend_str(&mut v, "result set ");
    let d = u64_dec(id);
    extend_chars(&mut v, d.as_slice());
    extend_str(&mut v, " released");
    AppError::Internal(string_of(v.as_slice()))
}

/// `h` without the entries whose id is in `gone`, in order.
spec fn drop_ids(h: Seq<(u64, ResultSetBuffer)>, gone: Seq<u64>) -> Seq<(u64, ResultSetBuffer)>
    decreases h.len(),
{
    if h.len() == 0 {
        seq![]
    } else {
        let p = drop_ids(h.drop_last(), gone);
        if gone.contains(h.last().0) {
            p
        } else {
            p.push(h.last())
        }
    }
}

proof fn lemma_drop_ids(h: Seq<(u64, ResultSetBuffer)>, gone: Seq<u64>)
    ensures
        forall|x: u64| #[trigger] ids_of(drop_ids(h, gone)).contains(x) <==> ids_of(h).contains(x) && !gone.contains(x),
        forall|j: int| 0 <= j < drop_ids(h, gone).len() ==> h.contains(#[trigger] drop_ids(h, gone)[j]),
        distinct_ids(ids_of(h)) ==> distinct_ids(ids_of(drop_ids(h, gone))),
    decreases h.len(),
{
    if h.len() > 0 {
        let t = h.drop_last();
        lemma_drop_ids(t, gone);
        let p = drop_ids(t, gone);
        let d = drop_ids(h, gone);
        assert(ids_of(h) =~= ids_of(t).push(h.last().0));
        let last = h.last().0;
        if gone.contains(last) {
            assert(d == p);
        } else {
            assert(ids_of(d) =~= ids_of(p).push(last));
        }
        assert forall|x: u64| #[trigger] ids_of(d).contains(x) <==> ids_of(h).contains(x) && !gone.contains(x) by {
            if ids_of(d).contains(x) {
                let w = choose|w: int| 0 <= w < ids_of(d).len() && ids_of(d)[w] == x;
                if w < ids_of(p).len() {
                    assert(ids_of(p)[w] == x);
                    assert(ids_of(p).contains(x));
                    let k = choose|k: int| 0 <= k < ids_of(t).len() && ids_of(t)[k] == x;
                    assert(ids_of(h)[k] == x);
                } else {
                    assert(x == last);
                    assert(ids_of(h)[h.len() - 1] == x);
                }
            }
            if ids_of(h).contains(x) && !gone.contains(x) {
                let k = choose|k: int| 0 <= k < ids_of(h).len() && ids_of(h)[k] == x;
                if k < t.len() {
                    assert(ids_of(t)[k] == x);
                    assert(ids_of(t).contains(x));
                    assert(ids_of(p).contains(x));
                    let w = choose|w: int| 0 <= w < ids_of(p).len() && ids_of(p)[w] == x;
                    assert(ids_of(d)[w] == x);
                } else {
                    assert(x == last);
                    assert(ids_of(d)[ids_of(p).len() as int] == x);
                }
            }
        }
        assert forall|j: int| 0 <= j < d.len() implies h.contains(#[trigger] d[j]) by {
            if j < p.len() {
                assert(d[j] == p[j]);
                assert(t.contains(p[j]));
                let k = choose|k: int| 0 <= k < t.len() && t[k] == p[j];
                assert(h[k] == t[k]);
            } else {
                assert(d[j] == h.last());
                assert(h[h.len() - 1] == h.last());
            }
        }
        if distinct_ids(ids_of(h)) {
            assert(distinct_ids(ids_of(t))) by {
                assert forall|a: int, b: int| 0 <= a < b < ids_of(t).len() implies ids_of(t)[a] != ids_of(t)[b] by {
                    assert(ids_of(t)[a] == ids_of(h)[a]);
                    assert(ids_of(t)[b] == ids_of(h)[b]);
                }
            }
            if !gone.contains(h.last().0) {
                assert(ids_of(d) =~= ids_of(p).push(h.last().0));
                assert(!ids_of(t).contains(h.last().0)) by {
                    if ids_of(t).contains(h.last().0) {
                        let k = choose|k: int| 0 <= k < ids_of(t).len() && ids_of(t)[k] == h.last().0;
                        assert(ids_of(h)[k] == ids_of(h)[h.len() - 1]);
                    }
                }
                assert forall|a: int, b: int| 0 <= a < b < ids_of(d).len() implies ids_of(d)[a] != ids_of(d)[b] by {
                    if b == ids_of(p).len() {
                        assert(ids_of(p).contains(ids_of(d)[a]));
                    }
                }
            }
        }
    }
}

/// Dropping entries from a list with distinct ids drops exactly their keys.
proof fn lemma_held_drop(h: Seq<(u64, ResultSetBuffer)>, gone: Seq<u64>)
    requires
        distinct_ids(ids_of(h)),
    ensures
        held_map(drop_ids(h, gone)) == held_map(h).remove_keys(gone.to_set()),
{
    lemma_drop_ids(h, gone);
    let d = drop_ids(h, gone);
    assert forall|x: u64| #[trigger] held_map(d).contains_key(x) implies held_map(d)[x] == held_map(h)[x] by {
        let j = choose|j: int| 0 <= j < ids_of(d).len() && ids_of(d)[j] == x;
        assert(d[j].0 == x);
        lemma_index_unique(d, j);
        assert(h.contains(d[j]));
        let k = choose|k: int| 0 <= k < h.len() && h[k] == d[j];
        lemma_index_unique(h, k);
    }
    assert(held_map(d) =~= held_map(h).remove_keys(gone.to_set()));
}

/// Replacing the buffer at a position replaces the value of its id.
proof fn lemma_held_replace(h: Seq<(u64, ResultSetBuffer)>, i: int)
    requires
        distinct_ids(ids_of(h)),
        0 <= i < h.len(),
    ensures
        forall|b: ResultSetBuffer| #[trigger] held_map(h.update(i, (h[i].0, b))) == held_map(h).insert(h[i].0, b),
        forall|b: ResultSetBuffer| #[trigger] ids_of(h.update(i, (h[i].0, b))) == ids_of(h),
{
    assert forall|b: ResultSetBuffer| #[trigger] held_map(h.update(i, (h[i].0, b))) == held_map(h).insert(h[i].0, b) by {
        let g = h.update(i, (h[i].0, b));
        assert(ids_of(g) =~= ids_of(h));
        assert forall|x: u64| #[trigger] held_map(g).contains_key(x) implies held_map(g)[x] == held_map(h).insert(h[i].0, b)[x] by {
            let k = choose|k: int| 0 <= k < ids_of(g).len() && ids_of(g)[k] == x;
            assert(ids_of(g)[k] == g[k].0);
            lemma_index_unique(g, k);
            if k != i {
                assert(g[k] == h[k]);
                assert(ids_of(h)[k] == h[k].0);
                assert(ids_of(h)[i] == h[i].0);
                if k < i {
                    assert(ids_of(h)[k] != ids_of(h)[i]);
                } else {
                    assert(ids_of(h)[i] != ids_of(h)[k]);
                }
                lemma_index_unique(h, k);
            }
        }
        assert(ids_of(h)[i] == h[i].0);
        assert(ids_of(h).contains(h[i].0));
        assert forall|x: u64| #[trigger] held_map(g).contains_key(x) <==> held_map(h).insert(h[i].0, b).contains_key(x) by {
            assert(ids_of(g) == ids_of(h));
        }
        assert(held_map(g) =~= held_map(h).insert(h[i].0, b));
    }
    assert forall|b: ResultSetBuffer| #[trigger] ids_of(h.update(i, (h[i].0, b))) == ids_of(h) by {
        assert(ids_of(h.update(i, (h[i].0, b))) =~= ids_of(h));
    }
}

} // verus!
