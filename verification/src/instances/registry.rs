//! The instance registry: the persisted instance definitions and the
//! lifecycle state of each, as the manager holds them in memory. A state
//! that was never set reads as stopped.

use super::model::{capped_sql_memory, capped_sql_memory_mb, state_label, Instance, InstanceSpec, InstanceState, StateSpec};
use crate::error::{is_internal_error, is_runtime_error, AppError};
use crate::text::{extend_str, owned, str_eq, string_of};
use vstd::prelude::*;

verus! {

/// An instance together with its current state.
pub struct InstanceInfo {
    pub instance: Instance,
    pub state: InstanceState,
}

/// The state recorded for `id` in `s` (the last entry for it), stopped when
/// there is none.
pub open spec fn state_in(s: Seq<(String, InstanceState)>, id: Seq<char>) -> StateSpec
    decreases s.len(),
{
    if s.len() == 0 {
        StateSpec::Stopped
    } else if s.last().0@ == id {
        s.last().1@
    } else {
        state_in(s.drop_last(), id)
    }
}

pub open spec fn unique_keys(s: Seq<(String, InstanceState)>) -> bool {
    forall|i: int, j: int| 0 <= i < j < s.len() ==> (#[trigger] s[i]).0@ != (#[trigger] s[j]).0@
}

/// `i` is the first position of an instance with this id.
pub open spec fn first_index(s: Seq<InstanceSpec>, id: Seq<char>, i: int) -> bool {
    &&& 0 <= i < s.len()
    &&& s[i].id == id
    &&& forall|j: int| 0 <= j < i ==> (#[trigger] s[j]).id != id
}

pub open spec fn has_id(s: Seq<InstanceSpec>, id: Seq<char>) -> bool {
    exists|i: int| 0 <= i < s.len() && (#[trigger] s[i]).id == id
}

/// The instance a lookup by id finds: the first with that id.
pub open spec fn lookup(s: Seq<InstanceSpec>, id: Seq<char>) -> Option<InstanceSpec> {
    if has_id(s, id) {
        Some(s[choose|i: int| first_index(s, id, i)])
    } else {
        None
    }
}

/// States in which an instance holds a running (or starting) container.
pub open spec fn is_active(s: StateSpec) -> bool {
    s is Running || s is WaitingForSql || s is Starting
}

pub open spec fn unknown_instance_message(id: Seq<char>) -> Seq<char> {
    "unknown instance "@ + id
}

proof fn lemma_state_in_found(s: Seq<(String, InstanceState)>, i: int, id: Seq<char>)
    requires
        unique_keys(s),
        0 <= i < s.len(),
        s[i].0@ == id,
    ensures
        state_in(s, id) == s[i].1@,
    decreases s.len(),
{
    if i < s.len() - 1 {
        assert(s.last() == s[s.len() - 1]);
        assert(s.drop_last()[i] == s[i]);
        lemma_state_in_found(s.drop_last(), i, id);
    }
}

proof fn lemma_state_in_absent(s: Seq<(String, InstanceState)>, id: Seq<char>)
    requires
        forall|i: int| 0 <= i < s.len() ==> (#[trigger] s[i]).0@ != id,
    ensures
        state_in(s, id) == StateSpec::Stopped,
    decreases s.len(),
{
    if s.len() > 0 {
        assert(s.last() == s[s.len() - 1]);
        assert forall|i: int| 0 <= i < s.drop_last().len() implies (#[trigger] s.drop_last()[i]).0@ != id by {
            assert(s.drop_last()[i] == s[i]);
        }
        lemma_state_in_absent(s.drop_last(), id);
    }
}

proof fn lemma_state_in_update(s: Seq<(String, InstanceState)>, i: int, e: (String, InstanceState), k: Seq<char>)
    requires
        unique_keys(s),
        0 <= i < s.len(),
        e.0@ == s[i].0@,
    ensures
        state_in(s.update(i, e), k) == (if k == e.0@ { e.1@ } else { state_in(s, k) }),
    decreases s.len(),
{
    let t = s.update(i, e);
    if i == s.len() - 1 {
        assert(t.drop_last() =~= s.drop_last());
        if k == e.0@ {
        } else {
            assert(s.last().0@ == e.0@);
        }
    } else {
        assert(t.drop_last() =~= s.drop_last().update(i, e));
        assert(t.last() == s.last());
        assert(unique_keys(s.drop_last())) by {
            assert forall|a: int, b: int| 0 <= a < b < s.drop_last().len() implies (#[trigger] s.drop_last()[a]).0@
                != (#[trigger] s.drop_last()[b]).0@ by {
                assert(s.drop_last()[a] == s[a]);
                assert(s.drop_last()[b] == s[b]);
            }
        }
        assert(s.drop_last()[i] == s[i]);
        lemma_state_in_update(s.drop_last(), i, e, k);
        if k == e.0@ {
            assert(s[s.len() - 1].0@ != s[i].0@);
        }
    }
}

proof fn lemma_state_in_push(s: Seq<(String, InstanceState)>, e: (String, InstanceState), k: Seq<char>)
    ensures
        state_in(s.push(e), k) == (if k == e.0@ { e.1@ } else { state_in(s, k) }),
{
    assert(s.push(e).drop_last() =~= s);
}

proof fn lemma_state_in_remove(s: Seq<(String, InstanceState)>, i: int, k: Seq<char>)
    requires
        unique_keys(s),
        0 <= i < s.len(),
    ensures
        state_in(s.remove(i), k) == (if k == s[i].0@ { StateSpec::Stopped } else { state_in(s, k) }),
    decreases s.len(),
{
    let t = s.remove(i);
    if i == s.len() - 1 {
        assert(t =~= s.drop_last());
        if k == s[i].0@ {
            assert forall|j: int| 0 <= j < t.len() implies (#[trigger] t[j]).0@ != k by {
                assert(t[j] == s[j]);
            }
            lemma_state_in_absent(t, k);
        }
    } else {
        assert(t.drop_last() =~= s.drop_last().remove(i));
        assert(t.last() == s.last());
        assert(unique_keys(s.drop_last())) by {
            assert forall|a: int, b: int| 0 <= a < b < s.drop_last().len() implies (#[trigger] s.drop_last()[a]).0@
                != (#[trigger] s.drop_last()[b]).0@ by {
                assert(s.drop_last()[a] == s[a]);
                assert(s.drop_last()[b] == s[b]);
            }
        }
        assert(s.drop_last()[i] == s[i]);
        lemma_state_in_remove(s.drop_last(), i, k);
        if k == s[i].0@ {
            assert(s[s.len() - 1].0@ != s[i].0@);
        }
    }
}

proof fn lemma_lookup_first(s: Seq<InstanceSpec>, id: Seq<char>, i: int)
    requires
        first_index(s, id, i),
    ensures
        lookup(s, id) == Some(s[i]),
{
    assert(has_id(s, id));
    let c = choose|c: int| first_index(s, id, c);
    assert(first_index(s, id, c));
    if c < i {
        assert(s[c].id != id);
    }
    if i < c {
        assert(s[i].id != id);
    }
}

pub struct Registry {
    instances: Vec<Instance>,
    states: Vec<(String, InstanceState)>,
}

impl Registry {
    pub closed spec fn wf(&self) -> bool {
        unique_keys(self.states@)
    }

    /// The instances, in creation order.
    pub closed spec fn spec_instances(&self) -> Seq<InstanceSpec> {
        self.instances@.map_values(|i: Instance| i@)
    }

    /// The current state of an instance id.
    pub closed spec fn spec_state(&self, id: Seq<char>) -> StateSpec {
        state_in(self.states@, id)
    }

    /// A registry of the loaded instances, all stopped.
    pub fn new(instances: Vec<Instance>) -> (r: Self)
        ensures
            r.wf(),
            r.spec_instances() == instances@.map_values(|i: Instance| i@),
            forall|id: Seq<char>| r.spec_state(id) == StateSpec::Stopped,
    {
        Registry { instances, states: Vec::new() }
    }

    fn find_instance(&self, id: &str) -> (r: Option<usize>)
        ensures
            match r {
                Some(i) => first_index(self.spec_instances(), id@, i as int),
                None => !has_id(self.spec_instances(), id@),
            },
    {
        let mut i: usize = 0;
        while i < self.instances.len()
            invariant
                i <= self.instances@.len(),
                forall|j: int| 0 <= j < i ==> (#[trigger] self.spec_instances()[j]).id != id@,
            decreases self.instances@.len() - i,
        {
            if str_eq(self.instances[i].id.as_str(), id) {
                return Some(i);
            }
            i += 1;
        }
        None
    }

    fn find_state(&self, id: &str) -> (r: Option<usize>)
        ensures
            match r {
                Some(i) => i < self.states@.len() && self.states@[i as int].0@ == id@,
                None => forall|j: int| 0 <= j < self.states@.len() ==> (#[trigger] self.states@[j]).0@ != id@,
            },
    {
        let mut i: usize = 0;
        while i < self.states.len()
            invariant
                i <= self.states@.len(),
                forall|j: int| 0 <= j < i ==> (#[trigger] self.states@[j]).0@ != id@,
            decreases self.states@.len() - i,
        {
            if str_eq(self.states[i].0.as_str(), id) {
                return Some(i);
            }
            i += 1;
        }
        None
    }

    /// The current state of an instance (stopped when none was recorded).
    pub fn state(&self, id: &str) -> (r: InstanceState)
        requires
            self.wf(),
        ensures
            r@ == self.spec_state(id@),
    {
        match self.find_state(id) {
            Some(i) => {
                proof {
                    lemma_state_in_found(self.states@, i as int, id@);
                }
                self.states[i].1.copy()
            },
            None => {
                proof {
                    lemma_state_in_absent(self.states@, id@);
                }
                InstanceState::Stopped
            },
        }
    }

    /// Records a new state for an instance; every other state is unchanged.
    pub fn set_state(&mut self, id: &str, state: InstanceState)
        requires
            old(self).wf(),
        ensures
            final(self).wf(),
            final(self).spec_instances() == old(self).spec_instances(),
            forall|k: Seq<char>| #[trigger]
                final(self).spec_state(k) == (if k == id@ { state@ } else { old(self).spec_state(k) }),
    {
        let e = (owned(id), state);
        match self.find_state(id) {
            Some(i) => {
                proof {
                    assert forall|k: Seq<char>| #[trigger]
                        state_in(self.states@.update(i as int, e), k) == (if k == id@ { e.1@ } else { state_in(self.states@, k) }) by {
                        lemma_state_in_update(self.states@, i as int, e, k);
                    }
                }
                let ghost before = self.states@;
                self.states.set(i, e);
                proof {
                    assert(self.states@ == before.update(i as int, e));
                    assert(unique_keys(self.states@)) by {
                        assert forall|a: int, b: int| 0 <= a < b < self.states@.len() implies (#[trigger] self.states@[a]).0@
                            != (#[trigger] self.states@[b]).0@ by {
                            assert(before[a].0@ != before[b].0@);
                        }
                    }
                }
            },
            None => {
                let ghost before = self.states@;
                proof {
                    assert forall|k: Seq<char>| #[trigger]
                        state_in(before.push(e), k) == (if k == id@ { e.1@ } else { state_in(before, k) }) by {
                        lemma_state_in_push(before, e, k);
                    }
                }
                self.states.push(e);
                proof {
                    assert(unique_keys(self.states@)) by {
                        assert forall|a: int, b: int| 0 <= a < b < self.states@.len() implies (#[trigger] self.states@[a]).0@
                            != (#[trigger] self.states@[b]).0@ by {
                            if b < before.len() {
                                assert(before[a].0@ != before[b].0@);
                            } else {
                                assert(self.states@[a] == before[a]);
                            }
                        }
                    }
                }
            },
        }
    }

    /// The instance with this id (the first, should the file hold two).
    pub fn get(&self, id: &str) -> (r: Result<Instance, AppError>)
        ensures
            match lookup(self.spec_instances(), id@) {
                Some(inst) => r matches Ok(x) && x@ == inst,
                None => r matches Err(e) && is_internal_error(e, unknown_instance_message(id@)),
            },
    {
        match self.find_instance(id) {
            Some(i) => {
                proof {
                    lemma_lookup_first(self.spec_instances(), id@, i as int);
                }
                Ok(self.instances[i].copy())
            },
            None => {
                let mut v: Vec<char> = Vec::new();
                extend_str(&mut v, "unknown instance ");
                extend_str(&mut v, id);
                Err(AppError::Internal(string_of(v.as_slice())))
            },
        }
    }

    /// Every instance with its state, in registry order.
    pub fn list(&self) -> (r: Vec<InstanceInfo>)
        requires
            self.wf(),
        ensures
            r@.len() == self.spec_instances().len(),
            forall|i: int| #![trigger r@[i]]
                0 <= i < r@.len() ==> r@[i].instance@ == self.spec_instances()[i] && r@[i].state@
                    == self.spec_state(self.spec_instances()[i].id),
    {
        let mut out: Vec<InstanceInfo> = Vec::new();
        let mut i: usize = 0;
        while i < self.instances.len()
            invariant
                self.wf(),
                i <= self.instances@.len(),
                out@.len() == i,
                forall|k: int| #![trigger out@[k]]
                    0 <= k < i ==> out@[k].instance@ == self.spec_instances()[k] && out@[k].state@
                        == self.spec_state(self.spec_instances()[k].id),
            decreases self.instances@.len() - i,
        {
            let inst = &self.instances[i];
            let state = self.state(inst.id.as_str());
            out.push(InstanceInfo { instance: inst.copy(), state });
            i += 1;
        }
        out
    }

    /// The IP of a running instance.
    pub fn running_ip(&self, id: &str) -> (r: Result<String, AppError>)
        requires
            self.wf(),
        ensures
            match self.spec_state(id@) {
                StateSpec::Running { ip } => r matches Ok(x) && x@ == ip,
                other => r matches Err(e) && is_runtime_error(
                    e,
                    "instance is not running (state: "@ + state_label(other) + ")"@,
                    None,
                ),
            },
    {
        let s = self.state(id);
        match s {
            InstanceState::Running { ip } => Ok(ip),
            other => {
                let mut v: Vec<char> = Vec::new();
                extend_str(&mut v, "instance is not running (state: ");
                extend_str(&mut v, other.label());
                extend_str(&mut v, ")");
                proof {
                    other.lemma_label_view();
                }
                Err(AppError::runtime(string_of(v.as_slice()), None))
            },
        }
    }

    /// The instance to start: it must exist and be stopped or failed.
    pub fn prepare_start(&self, id: &str) -> (r: Result<Instance, AppError>)
        requires
            self.wf(),
        ensures
            match lookup(self.spec_instances(), id@) {
                None => r matches Err(e) && is_internal_error(e, unknown_instance_message(id@)),
                Some(inst) => match self.spec_state(id@) {
                    StateSpec::Stopped | StateSpec::Failed { .. } => r matches Ok(x) && x@ == inst,
                    other => r matches Err(e) && is_runtime_error(
                        e,
                        "instance is already "@ + state_label(other),
                        None,
                    ),
                },
            },
    {
        let instance = match self.get(id) {
            Ok(x) => x,
            Err(e) => return Err(e),
        };
        let s = self.state(id);
        match s {
            InstanceState::Stopped => Ok(instance),
            InstanceState::Failed { .. } => Ok(instance),
            other => {
                let mut v: Vec<char> = Vec::new();
                extend_str(&mut v, "instance is already ");
                extend_str(&mut v, other.label());
                proof {
                    other.lemma_label_view();
                }
                Err(AppError::runtime(string_of(v.as_slice()), None))
            },
        }
    }

    /// Adds a newly created instance, stopped.
    pub fn add(&mut self, instance: Instance) -> (r: InstanceInfo)
        requires
            old(self).wf(),
        ensures
            final(self).wf(),
            final(self).spec_instances() == old(self).spec_instances().push(instance@),
            forall|k: Seq<char>| #[trigger]
                final(self).spec_state(k) == (if k == instance.id@ { StateSpec::Stopped } else { old(self).spec_state(k) }),
            r.instance@ == instance@,
            r.state@ == StateSpec::Stopped,
    {
        let id = owned(instance.id.as_str());
        let info = InstanceInfo { instance: instance.copy(), state: InstanceState::Stopped };
        let ghost before = self.spec_instances();
        self.instances.push(instance);
        assert(self.spec_instances() =~= before.push(instance@));
        self.set_state(id.as_str(), InstanceState::Stopped);
        info
    }

    /// Renames an instance and/or changes its memory; a memory change caps
    /// SQL Server's own limit so that 1 GiB stays free.
    pub fn update(&mut self, id: &str, name: Option<String>, memory_mb: Option<u32>) -> (r: Result<InstanceInfo, AppError>)
        requires
            old(self).wf(),
        ensures
            final(self).wf(),
            forall|k: Seq<char>| #[trigger] final(self).spec_state(k) == old(self).spec_state(k),
            final(self).spec_instances().len() == old(self).spec_instances().len(),
            !has_id(old(self).spec_instances(), id@) ==> {
                &&& final(self).spec_instances() == old(self).spec_instances()
                &&& r matches Err(e)
                &&& is_internal_error(e, unknown_instance_message(id@))
            },
            forall|i: int|
                first_index(old(self).spec_instances(), id@, i) ==> {
                    let o = old(self).spec_instances()[i];
                    let n = InstanceSpec {
                        name: match name {
                            Some(x) => x@,
                            None => o.name,
                        },
                        memory_mb: match memory_mb {
                            Some(m) => m,
                            None => o.memory_mb,
                        },
                        sql_memory_mb: match memory_mb {
                            Some(m) => capped_sql_memory(o.sql_memory_mb, m),
                            None => o.sql_memory_mb,
                        },
                        ..o
                    };
                    &&& final(self).spec_instances() == old(self).spec_instances().update(i, n)
                    &&& r matches Ok(info)
                    &&& info.instance@ == n
                    &&& info.state@ == old(self).spec_state(id@)
                },
    {
        match self.find_instance(id) {
            None => {
                let mut v: Vec<char> = Vec::new();
                extend_str(&mut v, "unknown instance ");
                extend_str(&mut v, id);
                Err(AppError::Internal(string_of(v.as_slice())))
            },
            Some(i) => {
                let ghost before = self.spec_instances();
                let mut inst = self.instances[i].copy();
                match name {
                    Some(n) => {
                        inst.name = n;
                    },
                    None => {},
                }
                match memory_mb {
                    Some(m) => {
                        inst.memory_mb = m;
                        inst.sql_memory_mb = capped_sql_memory_mb(inst.sql_memory_mb, m);
                    },
                    None => {},
                }
                let state = self.state(id);
                let info = InstanceInfo { instance: inst.copy(), state };
                self.instances.set(i, inst);
                proof {
                    assert(self.spec_instances() =~= before.update(i as int, info.instance@));
                    assert forall|j: int| first_index(before, id@, j) implies j == i by {
                        if j < i {
                            assert(before[j].id != id@);
                        }
                        if i < j {
                            assert(before[i as int].id != id@);
                        }
                    }
                }
                Ok(info)
            },
        }
    }

    /// Whether an instance must be stopped before it is deleted.
    pub fn needs_stop_before_delete(&self, id: &str) -> (r: bool)
        requires
            self.wf(),
        ensures
            r == (self.spec_state(id@) is Running || self.spec_state(id@) is WaitingForSql),
    {
        let s = self.state(id);
        match s {
            InstanceState::Running { .. } => true,
            InstanceState::WaitingForSql => true,
            _ => false,
        }
    }

    /// Forgets an instance: every definition with this id and its state.
    pub fn remove(&mut self, id: &str)
        requires
            old(self).wf(),
        ensures
            final(self).wf(),
            final(self).spec_instances() == old(self).spec_instances().filter(|i: InstanceSpec| i.id != id@),
            forall|k: Seq<char>| #[trigger]
                final(self).spec_state(k) == (if k == id@ { StateSpec::Stopped } else { old(self).spec_state(k) }),
    {
        let ghost before = self.spec_instances();
        let mut kept: Vec<Instance> = Vec::new();
        let mut i: usize = 0;
        while i < self.instances.len()
            invariant
                i <= self.instances@.len(),
                before == self.spec_instances(),
                kept@.map_values(|x: Instance| x@) == before.take(i as int).filter(|x: InstanceSpec| x.id != id@),
            decreases self.instances@.len() - i,
        {
            let ghost pre = kept@.map_values(|x: Instance| x@);
            assert(before.take(i + 1).drop_last() =~= before.take(i as int));
            proof {
                reveal(Seq::filter);
            }
            if !str_eq(self.instances[i].id.as_str(), id) {
                kept.push(self.instances[i].copy());
                assert(kept@.map_values(|x: Instance| x@) =~= pre.push(before[i as int]));
            }
            i += 1;
        }
        assert(before.take(before.len() as int) =~= before);
        self.instances = kept;
        match self.find_state(id) {
            Some(j) => {
                let ghost s = self.states@;
                proof {
                    assert forall|k: Seq<char>| #[trigger]
                        state_in(s.remove(j as int), k) == (if k == id@ { StateSpec::Stopped } else { state_in(s, k) }) by {
                        lemma_state_in_remove(s, j as int, k);
                    }
                }
                self.states.remove(j);
                proof {
                    assert(unique_keys(self.states@)) by {
                        assert forall|a: int, b: int| 0 <= a < b < self.states@.len() implies (#[trigger] self.states@[a]).0@
                            != (#[trigger] self.states@[b]).0@ by {
                            let a2 = if a < j { a } else { a + 1 };
                            let b2 = if b < j { b } else { b + 1 };
                            assert(self.states@[a] == s[a2]);
                            assert(self.states@[b] == s[b2]);
                        }
                    }
                }
            },
            None => {
                proof {
                    lemma_state_in_absent(self.states@, id@);
                }
            },
        }
    }

    /// Ids of the instances whose container is running or starting (the
    /// ones to stop when the app exits), each once.
    pub fn ids_to_stop(&self) -> (r: Vec<String>)
        requires
            self.wf(),
        ensures
            forall|i: int| 0 <= i < r@.len() ==> is_active(self.spec_state((#[trigger] r@[i])@)),
            forall|k: Seq<char>| is_active(#[trigger] self.spec_state(k)) ==> exists|i: int|
                0 <= i < r@.len() && (#[trigger] r@[i])@ == k,
            forall|a: int, b: int| 0 <= a < b < r@.len() ==> (#[trigger] r@[a])@ != (#[trigger] r@[b])@,
    {
        let ghost s = self.states@;
        let mut out: Vec<String> = Vec::new();
        let ghost mut src: Seq<int> = Seq::empty();
        let mut i: usize = 0;
        while i < self.states.len()
            invariant
                self.wf(),
                s == self.states@,
                i <= s.len(),
                out@.len() == src.len(),
                forall|x: int| 0 <= x < src.len() ==> 0 <= #[trigger] src[x] < i && out@[x]@ == s[src[x]].0@
                    && is_active(s[src[x]].1@),
                forall|a: int, b: int| 0 <= a < b < src.len() ==> #[trigger] src[a] < #[trigger] src[b],
                forall|j: int| 0 <= j < i && is_active(#[trigger] s[j].1@) ==> exists|x: int| 0 <= x < src.len() && src[x] == j,
            decreases s.len() - i,
        {
            let active = match &self.states[i].1 {
                InstanceState::Running { .. } => true,
                InstanceState::WaitingForSql => true,
                InstanceState::Starting => true,
                _ => false,
            };
            let ghost old_src = src;
            if active {
                out.push(owned(self.states[i].0.as_str()));
                proof {
                    src = src.push(i as int);
                }
            }
            proof {
                assert forall|j: int| 0 <= j < i + 1 && is_active(#[trigger] s[j].1@) implies exists|x: int|
                    0 <= x < src.len() && src[x] == j by {
                    if j < i {
                        let x = choose|x: int| 0 <= x < old_src.len() && old_src[x] == j;
                        assert(src[x] == j);
                    } else {
                        assert(src[src.len() - 1] == j);
                    }
                }
            }
            i += 1;
        }
        proof {
            assert forall|x: int| 0 <= x < out@.len() implies is_active(self.spec_state((#[trigger] out@[x])@)) by {
                lemma_state_in_found(s, src[x], out@[x]@);
            }
            assert forall|k: Seq<char>| is_active(#[trigger] self.spec_state(k)) implies exists|x: int|
                0 <= x < out@.len() && (#[trigger] out@[x])@ == k by {
                if forall|j: int| 0 <= j < s.len() ==> (#[trigger] s[j]).0@ != k {
                    lemma_state_in_absent(s, k);
                } else {
                    let j = choose|j: int| 0 <= j < s.len() && (#[trigger] s[j]).0@ == k;
                    lemma_state_in_found(s, j, k);
                    let x = choose|x: int| 0 <= x < src.len() && src[x] == j;
                    assert(out@[x]@ == k);
                }
            }
            assert forall|a: int, b: int| 0 <= a < b < out@.len() implies (#[trigger] out@[a])@ != (#[trigger] out@[b])@ by {
                assert(src[a] < src[b]);
            }
        }
        out
    }
}


/// A recorded state reads back: after `set_state(id, state)`, `state(id)`
/// is that state, and every other instance's state reads as before.
pub proof fn lemma_state_reads_back(before: Registry, after: Registry, id: Seq<char>, state: StateSpec)
    requires
        forall|k: Seq<char>| #[trigger] after.spec_state(k) == (if k == id { state } else { before.spec_state(k) }),
    ensures
        after.spec_state(id) == state,
        forall|k: Seq<char>| k != id ==> #[trigger] after.spec_state(k) == before.spec_state(k),
{
}

/// Nothing keeps running after quit: once every instance `ids_to_stop`
/// lists has been set to stopped, no instance is running, waiting for SQL
/// Server or starting.
pub proof fn lemma_stop_all_leaves_none_active(before: Registry, after: Registry, ids: Seq<Seq<char>>)
    requires
        forall|k: Seq<char>| is_active(#[trigger] before.spec_state(k)) ==> ids.contains(k),
        forall|k: Seq<char>| #[trigger] after.spec_state(k) == (if ids.contains(k) { StateSpec::Stopped } else { before.spec_state(k) }),
    ensures
        forall|k: Seq<char>| !is_active(#[trigger] after.spec_state(k)),
{
    assert forall|k: Seq<char>| !is_active(#[trigger] after.spec_state(k)) by {
        if !ids.contains(k) {
            assert(!is_active(before.spec_state(k)));
        }
    }
}

} // verus!
