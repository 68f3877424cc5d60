//! Kernel mutexes with FIFO wait queues, and deadlock detection on the wait-for graph.
use vstd::prelude::*;
use crate::kernel::task::{
    ProcessState, ProcessPriority, TaskTable, set_state_spec, set_process_state, create_process, kill_process,
    has_pid,
};
use crate::kernel::mem::{MemoryManager, mem_view, free_space_spec};
use crate::text::{push_str, push_decimal, chars_to_string, decimal};

verus! {

/// A kernel mutex: its owner and the processes blocked on it, first come first served.
#[derive(Debug)]
pub struct MutexInfo {
    pub id: u32,
    pub name: String,
    pub owner: Option<u32>,
    pub waiters: Vec<u32>,
}

/// All kernel mutexes, ordered by id, and the next id.
pub struct MutexTable {
    pub mutexes: Vec<MutexInfo>,
    pub next_id: u32,
}

/// A mutex is consistent: no process waits twice, the owner does not wait, and a waiter
/// implies an owner.
pub open spec fn mutex_wf(m: MutexInfo) -> bool {
    &&& m.waiters@.no_duplicates()
    &&& m.owner matches Some(o) ==> !m.waiters@.contains(o)
    &&& m.owner is None ==> m.waiters@.len() == 0
}

impl MutexTable {
    /// Ids are strictly increasing and below `next_id`; every mutex is consistent.
    pub open spec fn wf(&self) -> bool {
        &&& forall|i: int, j: int| 0 <= i < j < self.mutexes@.len() ==> self.mutexes@[i].id < self.mutexes@[j].id
        &&& forall|i: int| 0 <= i < self.mutexes@.len() ==> self.mutexes@[i].id < self.next_id
        &&& forall|i: int| 0 <= i < self.mutexes@.len() ==> mutex_wf(#[trigger] self.mutexes@[i])
    }
}

/// The abstract value of a mutex: id, name, owner and waiters.
pub open spec fn mutex_view(m: MutexInfo) -> (u32, Seq<char>, Option<u32>, Seq<u32>) {
    (m.id, m.name@, m.owner, m.waiters@)
}

/// The abstract value of all mutexes.
pub open spec fn mutexes_view(s: Seq<MutexInfo>) -> Seq<(u32, Seq<char>, Option<u32>, Seq<u32>)> {
    s.map_values(|m: MutexInfo| mutex_view(m))
}

/// An empty mutex table; the first mutex gets id 1.
pub fn init_mutex() -> (mt: MutexTable)
    ensures
        mt.wf(),
        mt.mutexes@.len() == 0,
        mt.next_id == 1,
{
    MutexTable { mutexes: Vec::new(), next_id: 1 }
}

/// Creates an unlocked mutex named `name` with the next id.
pub fn create_mutex(mt: &mut MutexTable, name: &str) -> (r: Result<u32, String>)
    requires
        old(mt).wf(),
        old(mt).next_id < u32::MAX,
    ensures
        final(mt).wf(),
        r == Ok::<u32, String>(old(mt).next_id),
        final(mt).next_id == old(mt).next_id + 1,
        mutexes_view(final(mt).mutexes@) == mutexes_view(old(mt).mutexes@).push(
            (old(mt).next_id, name@, None::<u32>, Seq::<u32>::empty()),
        ),
{
    let id = mt.next_id;
    mt.mutexes.push(MutexInfo { id, name: String::from_str(name), owner: None, waiters: Vec::new() });
    mt.next_id = id + 1;
    assert(mutexes_view(mt.mutexes@) =~= mutexes_view(old(mt).mutexes@).push(
        (id, name@, None::<u32>, Seq::<u32>::empty()),
    ));
    Ok(id)
}

/// Whether some mutex has id `id`.
pub open spec fn has_mutex(s: Seq<MutexInfo>, id: u32) -> bool {
    exists|i: int| 0 <= i < s.len() && s[i].id == id
}

/// Index of the mutex with id `id` (meaningful when `has_mutex`).
pub open spec fn mutex_index(s: Seq<MutexInfo>, id: u32) -> int {
    choose|i: int| 0 <= i < s.len() && s[i].id == id
}

/// Index of the mutex with id `id`, if any.
fn find_mutex(mt: &MutexTable, id: u32) -> (r: Option<usize>)
    requires
        mt.wf(),
    ensures
        r matches Some(i) ==> i < mt.mutexes@.len() && mt.mutexes@[i as int].id == id
            && has_mutex(mt.mutexes@, id) && mutex_index(mt.mutexes@, id) == i,
        r is None ==> !has_mutex(mt.mutexes@, id),
{
    let mut i: usize = 0;
    while i < mt.mutexes.len()
        invariant
            mt.wf(),
            i <= mt.mutexes@.len(),
            forall|k: int| 0 <= k < i ==> mt.mutexes@[k].id != id,
        decreases mt.mutexes@.len() - i,
    {
        if mt.mutexes[i].id == id {
            proof {
                assert(has_mutex(mt.mutexes@, id));
                let c = mutex_index(mt.mutexes@, id);
                assert(0 <= c < mt.mutexes@.len() && mt.mutexes@[c].id == id);
                if c < i {} else if c > i {}
            }
            return Some(i);
        }
        i = i + 1;
    }
    None
}

/// Whether `v` holds `x`.
fn vec_contains(v: &Vec<u32>, x: u32) -> (r: bool)
    ensures
        r == v@.contains(x),
{
    let mut i: usize = 0;
    while i < v.len()
        invariant
            i <= v@.len(),
            forall|k: int| 0 <= k < i ==> v@[k] != x,
        decreases v@.len() - i,
    {
        if v[i] == x {
            return true;
        }
        i = i + 1;
    }
    false
}

/// The outcome of `lock_mutex`: the error, or whether the lock was acquired and the new mutex.
pub open spec fn lock_spec(s: Seq<MutexInfo>, id: u32, pid: u32) -> Result<(bool, (u32, Seq<char>, Option<u32>, Seq<u32>)), Seq<char>> {
    if !has_mutex(s, id) {
        Err("Mutex not found"@)
    } else {
        let m = mutex_view(s[mutex_index(s, id)]);
        match m.2 {
            Some(o) => if o == pid {
                Err("Deadlock: Process already holds this lock"@)
            } else {
                let ws = if m.3.contains(pid) { m.3 } else { m.3.push(pid) };
                Ok((false, (m.0, m.1, m.2, ws)))
            },
            None => Ok((true, (m.0, m.1, Some(pid), m.3))),
        }
    }
}

/// Acquires mutex `mutex_id` for `pid` (`Ok(true)`), or queues `pid` behind the owner and
/// blocks it (`Ok(false)`). Locking a mutex one already holds is refused.
pub fn lock_mutex(mt: &mut MutexTable, tt: &mut TaskTable, mutex_id: u32, pid: u32) -> (r: Result<bool, String>)
    requires
        old(mt).wf(),
        old(tt).wf(),
    ensures
        final(mt).wf(),
        final(tt).wf(),
        final(mt).next_id == old(mt).next_id,
        final(mt).mutexes@.len() == old(mt).mutexes@.len(),
        final(tt).current_pid == old(tt).current_pid,
        final(tt).next_pid == old(tt).next_pid,
        match lock_spec(old(mt).mutexes@, mutex_id, pid) {
            Err(msg) => r matches Err(e) && e@ == msg
                && mutexes_view(final(mt).mutexes@) == mutexes_view(old(mt).mutexes@)
                && final(tt).procs@ == old(tt).procs@,
            Ok((acquired, m)) => r == Ok::<bool, String>(acquired)
                && mutexes_view(final(mt).mutexes@) == mutexes_view(old(mt).mutexes@).update(
                    mutex_index(old(mt).mutexes@, mutex_id), m)
                && final(tt).procs@ == if acquired { old(tt).procs@ } else {
                    set_state_spec(old(tt).procs@, pid, ProcessState::Blocked)
                },
        },
{
    let i = match find_mutex(mt, mutex_id) {
        None => return Err(String::from_str("Mutex not found")),
        Some(i) => i,
    };
    let ghost s0 = mt.mutexes@;
    match mt.mutexes[i].owner {
        Some(o) => {
            if o == pid {
                return Err(String::from_str("Deadlock: Process already holds this lock"));
            }
            let mut m = mt.mutexes.remove(i);
            if !vec_contains(&m.waiters, pid) {
                m.waiters.push(pid);
            }
            proof {
                assert(mutex_wf(s0[i as int]));
                let ws = m.waiters@;
                if !s0[i as int].waiters@.contains(pid) {
                    assert forall|a: int, b: int| 0 <= a < ws.len() && 0 <= b < ws.len() && a != b implies ws[a] != ws[b] by {
                        let w0 = s0[i as int].waiters@;
                        if a == ws.len() - 1 { assert(ws[b] == w0[b]); }
                        else if b == ws.len() - 1 { assert(ws[a] == w0[a]); }
                        else { assert(ws[a] == w0[a]); assert(ws[b] == w0[b]); }
                    }
                    assert(!ws.contains(o)) by {
                        if ws.contains(o) {
                            let k = choose|k: int| 0 <= k < ws.len() && ws[k] == o;
                            if k < ws.len() - 1 { assert(s0[i as int].waiters@[k] == o); }
                        }
                    }
                }
            }
            mt.mutexes.insert(i, m);
            proof {
                let nm = mt.mutexes@;
                assert(nm =~= s0.update(i as int, nm[i as int]));
                assert forall|a: int| 0 <= a < nm.len() implies mutex_wf(#[trigger] nm[a]) by {
                    if a != i { assert(nm[a] == s0[a]); }
                }
                assert(mutexes_view(nm) =~= mutexes_view(s0).update(i as int, mutex_view(nm[i as int])));
            }
            set_process_state(tt, pid, ProcessState::Blocked);
            Ok(false)
        },
        None => {
            let mut m = mt.mutexes.remove(i);
            m.owner = Some(pid);
            proof {
                assert(mutex_wf(s0[i as int]));
            }
            mt.mutexes.insert(i, m);
            proof {
                let nm = mt.mutexes@;
                assert(nm =~= s0.update(i as int, nm[i as int]));
                assert forall|a: int| 0 <= a < nm.len() implies mutex_wf(#[trigger] nm[a]) by {
                    if a != i { assert(nm[a] == s0[a]); }
                }
                assert(mutexes_view(nm) =~= mutexes_view(s0).update(i as int, mutex_view(nm[i as int])));
            }
            Ok(true)
        },
    }
}

/// The outcome of `unlock_mutex`: the error, or the new mutex and the process woken, if any.
pub open spec fn unlock_spec(s: Seq<MutexInfo>, id: u32, pid: u32) -> Result<((u32, Seq<char>, Option<u32>, Seq<u32>), Option<u32>), Seq<char>> {
    if !has_mutex(s, id) {
        Err("Mutex not found"@)
    } else {
        let m = mutex_view(s[mutex_index(s, id)]);
        match m.2 {
            None => Err("Mutex is not locked"@),
            Some(o) => if o != pid {
                Err("Operation not permitted: process does not own the lock"@)
            } else if m.3.len() > 0 {
                Ok(((m.0, m.1, Some(m.3[0]), m.3.drop_first()), Some(m.3[0])))
            } else {
                Ok(((m.0, m.1, None, m.3), None))
            },
        }
    }
}

/// Releases mutex `mutex_id` held by `pid`; the first waiter, if any, becomes the owner and Ready.
pub fn unlock_mutex(mt: &mut MutexTable, tt: &mut TaskTable, mutex_id: u32, pid: u32) -> (r: Result<(), String>)
    requires
        old(mt).wf(),
        old(tt).wf(),
    ensures
        final(mt).wf(),
        final(tt).wf(),
        final(mt).next_id == old(mt).next_id,
        final(mt).mutexes@.len() == old(mt).mutexes@.len(),
        final(tt).current_pid == old(tt).current_pid,
        final(tt).next_pid == old(tt).next_pid,
        match unlock_spec(old(mt).mutexes@, mutex_id, pid) {
            Err(msg) => r matches Err(e) && e@ == msg
                && mutexes_view(final(mt).mutexes@) == mutexes_view(old(mt).mutexes@)
                && final(tt).procs@ == old(tt).procs@,
            Ok((m, woken)) => r is Ok
                && mutexes_view(final(mt).mutexes@) == mutexes_view(old(mt).mutexes@).update(
                    mutex_index(old(mt).mutexes@, mutex_id), m)
                && final(tt).procs@ == match woken {
                    Some(w) => set_state_spec(old(tt).procs@, w, ProcessState::Ready),
                    None => old(tt).procs@,
                },
        },
{
    let i = match find_mutex(mt, mutex_id) {
        None => return Err(String::from_str("Mutex not found")),
        Some(i) => i,
    };
    let ghost s0 = mt.mutexes@;
    match mt.mutexes[i].owner {
        None => Err(String::from_str("Mutex is not locked")),
        Some(o) => {
            if o != pid {
                return Err(String::from_str("Operation not permitted: process does not own the lock"));
            }
            let mut m = mt.mutexes.remove(i);
            proof {
                assert(mutex_wf(s0[i as int]));
            }
            let mut woken: Option<u32> = None;
            if m.waiters.len() > 0 {
                let next_owner = m.waiters.remove(0);
                m.owner = Some(next_owner);
                woken = Some(next_owner);
                proof {
                    let w0 = s0[i as int].waiters@;
                    assert(m.waiters@ =~= w0.drop_first());
                    assert(!m.waiters@.contains(next_owner)) by {
                        if m.waiters@.contains(next_owner) {
                            let k = choose|k: int| 0 <= k < m.waiters@.len() && m.waiters@[k] == next_owner;
                            assert(w0[k + 1] == w0[0]);
                        }
                    }
                    assert(m.waiters@.no_duplicates()) by {
                        assert forall|a: int, b: int| 0 <= a < m.waiters@.len() && 0 <= b < m.waiters@.len() && a != b implies m.waiters@[a] != m.waiters@[b] by {
                            assert(m.waiters@[a] == w0[a + 1]);
                            assert(m.waiters@[b] == w0[b + 1]);
                        }
                    }
                }
            } else {
                m.owner = None;
            }
            mt.mutexes.insert(i, m);
            proof {
                let nm = mt.mutexes@;
                assert(nm =~= s0.update(i as int, nm[i as int]));
                assert forall|a: int| 0 <= a < nm.len() implies mutex_wf(#[trigger] nm[a]) by {
                    if a != i { assert(nm[a] == s0[a]); }
                }
                assert(mutexes_view(nm) =~= mutexes_view(s0).update(i as int, mutex_view(nm[i as int])));
            }
            match woken {
                Some(w) => {
                    set_process_state(tt, w, ProcessState::Ready);
                },
                None => {},
            }
            Ok(())
        },
    }
}

/// A copy of a pid list.
fn copy_pids(v: &Vec<u32>) -> (r: Vec<u32>)
    ensures
        r@ == v@,
{
    let mut r: Vec<u32> = Vec::new();
    let mut i: usize = 0;
    while i < v.len()
        invariant
            i <= v.len(),
            r@ == v@.subrange(0, i as int),
        decreases v.len() - i,
    {
        r.push(v[i]);
        i = i + 1;
    }
    assert(r@ =~= v@);
    r
}

/// A copy of every mutex, in id order.
pub fn get_mutexes(mt: &MutexTable) -> (r: Vec<MutexInfo>)
    ensures
        mutexes_view(r@) == mutexes_view(mt.mutexes@),
{
    let mut r: Vec<MutexInfo> = Vec::new();
    let mut i: usize = 0;
    while i < mt.mutexes.len()
        invariant
            i <= mt.mutexes@.len(),
            mutexes_view(r@) == mutexes_view(mt.mutexes@.subrange(0, i as int)),
        decreases mt.mutexes@.len() - i,
    {
        let m = &mt.mutexes[i];
        let nm = MutexInfo { id: m.id, name: m.name.clone(), owner: m.owner, waiters: copy_pids(&m.waiters) };
        assert(mutex_view(nm) == mutex_view(mt.mutexes@[i as int]));
        let ghost prev = r@;
        r.push(nm);
        i = i + 1;
        assert(mutexes_view(r@) =~= mutexes_view(prev).push(mutex_view(nm)));
        assert(mutexes_view(mt.mutexes@.subrange(0, i as int)) =~= mutexes_view(mt.mutexes@.subrange(0, i - 1)).push(mutex_view(mt.mutexes@[i - 1])));
    }
    assert(mt.mutexes@.subrange(0, i as int) =~= mt.mutexes@);
    r
}


/// `g` with every waiter of `ws` waiting for `o` (later entries win).
pub open spec fn add_waiters(g: Map<u32, u32>, ws: Seq<u32>, o: u32) -> Map<u32, u32>
    decreases ws.len(),
{
    if ws.len() == 0 {
        g
    } else {
        add_waiters(g, ws.drop_last(), o).insert(ws.last(), o)
    }
}

/// The wait-for graph: each blocked process points to the owner of the mutex it waits for
/// (when it waits for several, the last in id order).
pub open spec fn wait_graph(s: Seq<MutexInfo>) -> Map<u32, u32>
    decreases s.len(),
{
    if s.len() == 0 {
        Map::empty()
    } else {
        let g = wait_graph(s.drop_last());
        match s.last().owner {
            Some(o) => add_waiters(g, s.last().waiters@, o),
            None => g,
        }
    }
}

/// `c` is a cycle of `g`: non-empty, without repetition, each process waiting for the next
/// and the last for the first.
pub open spec fn is_cycle(g: Map<u32, u32>, c: Seq<u32>) -> bool {
    &&& c.len() > 0
    &&& c.no_duplicates()
    &&& forall|i: int| 0 <= i < c.len() ==> g.contains_key(#[trigger] c[i]) && g[c[i]] == c[(i + 1) % (c.len() as int)]
}

/// The graph held as a list of edges (later edges win).
pub open spec fn edges_map(v: Seq<(u32, u32)>) -> Map<u32, u32>
    decreases v.len(),
{
    if v.len() == 0 {
        Map::empty()
    } else {
        edges_map(v.drop_last()).insert(v.last().0, v.last().1)
    }
}

proof fn lemma_edges_keys(v: Seq<(u32, u32)>)
    ensures
        forall|k: u32| edges_map(v).contains_key(k) <==> exists|i: int| 0 <= i < v.len() && (#[trigger] v[i]).0 == k,
    decreases v.len(),
{
    if v.len() > 0 {
        let t = v.drop_last();
        lemma_edges_keys(t);
        assert forall|k: u32| edges_map(v).contains_key(k) <==> exists|i: int| 0 <= i < v.len() && (#[trigger] v[i]).0 == k by {
            if edges_map(v).contains_key(k) {
                if k == v.last().0 {
                    assert(v[v.len() - 1].0 == k);
                } else {
                    assert(edges_map(t).contains_key(k));
                    let i = choose|i: int| 0 <= i < t.len() && (#[trigger] t[i]).0 == k;
                    assert(v[i] == t[i]);
                }
            }
            if exists|i: int| 0 <= i < v.len() && (#[trigger] v[i]).0 == k {
                let i = choose|i: int| 0 <= i < v.len() && (#[trigger] v[i]).0 == k;
                if i < v.len() - 1 {
                    assert(t[i] == v[i]);
                    assert(edges_map(t).contains_key(k));
                }
            }
        }
    }
}

/// The target of the last edge from `k`.
fn edge_lookup(v: &Vec<(u32, u32)>, k: u32) -> (r: Option<u32>)
    ensures
        r matches Some(t) ==> edges_map(v@).contains_key(k) && edges_map(v@)[k] == t,
        r is None ==> !edges_map(v@).contains_key(k),
{
    let mut i: usize = v.len();
    while i > 0
        invariant
            i <= v@.len(),
            forall|j: int| i <= j < v@.len() ==> (#[trigger] v@[j]).0 != k,
        decreases i,
    {
        if v[i - 1].0 == k {
            let t = v[i - 1].1;
            proof {
                lemma_edges_suffix(v@, i as int, k);
            }
            return Some(t);
        }
        i = i - 1;
    }
    proof {
        lemma_edges_keys(v@);
    }
    None
}

proof fn lemma_edges_suffix(v: Seq<(u32, u32)>, i: int, k: u32)
    requires
        0 < i <= v.len(),
        v[i - 1].0 == k,
        forall|j: int| i <= j < v.len() ==> (#[trigger] v[j]).0 != k,
    ensures
        edges_map(v).contains_key(k),
        edges_map(v)[k] == v[i - 1].1,
    decreases v.len(),
{
    if v.len() > i {
        let t = v.drop_last();
        assert forall|j: int| i <= j < t.len() implies (#[trigger] t[j]).0 != k by {
            assert(t[j] == v[j]);
        }
        assert(t[i - 1] == v[i - 1]);
        lemma_edges_suffix(t, i, k);
        assert(v.last().0 != k) by {
            assert(v[v.len() - 1].0 != k);
        }
    }
}

/// Builds the wait-for graph as a list of edges.
fn build_edges(mt: &MutexTable) -> (r: Vec<(u32, u32)>)
    ensures
        edges_map(r@) == wait_graph(mt.mutexes@),
{
    let mut v: Vec<(u32, u32)> = Vec::new();
    let mut i: usize = 0;
    while i < mt.mutexes.len()
        invariant
            i <= mt.mutexes@.len(),
            edges_map(v@) == wait_graph(mt.mutexes@.subrange(0, i as int)),
        decreases mt.mutexes@.len() - i,
    {
        let ghost pre = mt.mutexes@.subrange(0, i as int);
        let ghost g0 = edges_map(v@);
        match mt.mutexes[i].owner {
            Some(o) => {
                let ws = &mt.mutexes[i].waiters;
                let mut j: usize = 0;
                while j < ws.len()
                    invariant
                        j <= ws@.len(),
                        edges_map(v@) == add_waiters(g0, ws@.subrange(0, j as int), o),
                    decreases ws@.len() - j,
                {
                    let ghost vb = v@;
                    v.push((ws[j], o));
                    j = j + 1;
                    assert(v@.drop_last() =~= vb);
                    assert(ws@.subrange(0, j as int).drop_last() =~= ws@.subrange(0, j - 1));
                }
                assert(ws@.subrange(0, j as int) =~= ws@);
            },
            None => {},
        }
        i = i + 1;
        assert(mt.mutexes@.subrange(0, i as int).drop_last() =~= pre);
    }
    assert(mt.mutexes@.subrange(0, i as int) =~= mt.mutexes@);
    v
}

/// Index of `x` in `s`, if any.
fn pid_position(s: &Vec<u32>, x: u32) -> (r: Option<usize>)
    ensures
        r matches Some(p) ==> p < s@.len() && s@[p as int] == x,
        r is None ==> !s@.contains(x),
{
    let mut i: usize = 0;
    while i < s.len()
        invariant
            i <= s@.len(),
            forall|k: int| 0 <= k < i ==> s@[k] != x,
        decreases s@.len() - i,
    {
        if s[i] == x {
            return Some(i);
        }
        i = i + 1;
    }
    None
}

proof fn lemma_cycle_successor(g: Map<u32, u32>, c: Seq<u32>, x: u32)
    requires
        is_cycle(g, c),
        c.contains(x),
    ensures
        g.contains_key(x),
        c.contains(g[x]),
{
    let j = choose|j: int| 0 <= j < c.len() && c[j] == x;
    assert(g.contains_key(c[j]));
    let k = (j + 1) % (c.len() as int);
    assert(0 <= k < c.len());
    assert(c[k] == g[x]);
}

proof fn lemma_path_cycle(g: Map<u32, u32>, path: Seq<u32>, pos: int, curr: u32)
    requires
        0 <= pos < path.len(),
        path[pos] == curr,
        path.no_duplicates(),
        g.contains_key(path.last()) && g[path.last()] == curr,
        forall|k: int| 0 <= k < path.len() - 1 ==> g.contains_key(#[trigger] path[k]) && g[path[k]] == path[k + 1],
    ensures
        is_cycle(g, path.subrange(pos, path.len() as int)),
{
    let c = path.subrange(pos, path.len() as int);
    let n = c.len() as int;
    assert(c.no_duplicates()) by {
        assert forall|a: int, b: int| 0 <= a < n && 0 <= b < n && a != b implies c[a] != c[b] by {
            assert(c[a] == path[pos + a]);
            assert(c[b] == path[pos + b]);
        }
    }
    assert forall|a: int| 0 <= a < n implies g.contains_key(#[trigger] c[a]) && g[c[a]] == c[(a + 1) % n] by {
        assert(c[a] == path[pos + a]);
        if a + 1 < n {
            vstd::arithmetic::div_mod::lemma_small_mod((a + 1) as nat, n as nat);
            assert(c[a + 1] == path[pos + a + 1]);
        } else {
            vstd::arithmetic::div_mod::lemma_mod_self_0(n);
            assert(path[pos + a] == path.last());
            assert(c[0] == path[pos]);
        }
    }
}

proof fn lemma_walk_extend(g: Map<u32, u32>, path: Seq<u32>, curr: u32, start: u32, keys: Seq<u32>, edges: Seq<(u32, u32)>)
    requires
        path.no_duplicates(),
        !path.contains(curr),
        g.contains_key(curr),
        keys == edges.map_values(|e: (u32, u32)| e.0),
        forall|k: u32| g.contains_key(k) <==> exists|i: int| 0 <= i < edges.len() && (#[trigger] edges[i]).0 == k,
        forall|k: int| 0 <= k < path.len() ==> g.contains_key(#[trigger] path[k]),
        forall|c: Seq<u32>| is_cycle(g, c) && c.contains(start) ==> c.contains(curr),
    ensures
        path.push(curr).no_duplicates(),
        path.push(curr).len() <= keys.len(),
        forall|c: Seq<u32>| is_cycle(g, c) && c.contains(start) ==> c.contains(g[curr]),
{
    assert forall|c: Seq<u32>| is_cycle(g, c) && c.contains(start) implies c.contains(g[curr]) by {
        lemma_cycle_successor(g, c, curr);
    }
    let np = path.push(curr);
    assert(np.no_duplicates()) by {
        assert forall|a: int, b: int| 0 <= a < np.len() && 0 <= b < np.len() && a != b implies np[a] != np[b] by {
            if a == np.len() - 1 { assert(np[b] == path[b]); }
            else if b == np.len() - 1 { assert(np[a] == path[a]); }
            else { assert(np[a] == path[a]); assert(np[b] == path[b]); }
        }
    }
    assert(np.to_set().subset_of(keys.to_set())) by {
        assert forall|x: u32| np.to_set().contains(x) implies keys.to_set().contains(x) by {
            let a = choose|a: int| 0 <= a < np.len() && np[a] == x;
            assert(g.contains_key(x)) by {
                if a < np.len() - 1 { assert(np[a] == path[a]); }
            }
            let i = choose|i: int| 0 <= i < edges.len() && (#[trigger] edges[i]).0 == x;
            assert(keys[i] == x);
        }
    }
    np.unique_seq_to_set();
    keys.lemma_cardinality_of_set();
    vstd::set_lib::lemma_len_subset(np.to_set(), keys.to_set());
}

/// Finds a cycle in the wait-for graph (a deadlock), or `None` when there is none.
pub fn detect_deadlock(mt: &MutexTable) -> (r: Option<Vec<u32>>)
    ensures
        r matches Some(c) ==> is_cycle(wait_graph(mt.mutexes@), c@),
        r is None ==> forall|c: Seq<u32>| !is_cycle(wait_graph(mt.mutexes@), c),
{
    let edges = build_edges(mt);
    let ghost g = wait_graph(mt.mutexes@);
    let ghost keys = edges@.map_values(|e: (u32, u32)| e.0);
    proof {
        lemma_edges_keys(edges@);
    }
    let mut s: usize = 0;
    while s < edges.len()
        invariant
            g == edges_map(edges@),
            g == wait_graph(mt.mutexes@),
            keys == edges@.map_values(|e: (u32, u32)| e.0),
            forall|k: u32| g.contains_key(k) <==> exists|i: int| 0 <= i < edges@.len() && (#[trigger] edges@[i]).0 == k,
            s <= edges@.len(),
            forall|a: int, c: Seq<u32>| 0 <= a < s && is_cycle(g, c) ==> !#[trigger] c.contains(edges@[a].0),
        decreases edges@.len() - s,
    {
        let start = edges[s].0;
        let mut path: Vec<u32> = Vec::new();
        let mut curr = start;
        loop
            invariant
                g == edges_map(edges@),
                g == wait_graph(mt.mutexes@),
                keys == edges@.map_values(|e: (u32, u32)| e.0),
                forall|k: u32| g.contains_key(k) <==> exists|i: int| 0 <= i < edges@.len() && (#[trigger] edges@[i]).0 == k,
                s < edges@.len(),
                start == edges@[s as int].0,
                path@.no_duplicates(),
                path@.len() == 0 ==> curr == start,
                path@.len() > 0 ==> path@[0] == start && g.contains_key(path@.last()) && g[path@.last()] == curr,
                forall|k: int| 0 <= k < path@.len() - 1 ==> g.contains_key(#[trigger] path@[k]) && g[path@[k]] == path@[k + 1],
                forall|k: int| 0 <= k < path@.len() ==> g.contains_key(#[trigger] path@[k]),
                forall|c: Seq<u32>| is_cycle(g, c) && c.contains(start) ==> c.contains(curr),
                path@.len() <= keys.len(),
            ensures
                forall|c: Seq<u32>| is_cycle(g, c) ==> !c.contains(start),
            decreases keys.len() - path@.len(),
        {
            match edge_lookup(&edges, curr) {
                None => {
                    assert forall|c: Seq<u32>| is_cycle(g, c) implies !c.contains(start) by {
                        if c.contains(start) {
                            lemma_cycle_successor(g, c, curr);
                        }
                    }
                    break;
                },
                Some(next) => {
                    match pid_position(&path, curr) {
                        Some(pos) => {
                            proof {
                                lemma_path_cycle(g, path@, pos as int, curr);
                            }
                            let mut cyc: Vec<u32> = Vec::new();
                            let mut k: usize = pos;
                            while k < path.len()
                                invariant
                                    pos <= k <= path@.len(),
                                    g == wait_graph(mt.mutexes@),
                                    is_cycle(g, path@.subrange(pos as int, path@.len() as int)),
                                    cyc@ == path@.subrange(pos as int, k as int),
                                decreases path@.len() - k,
                            {
                                cyc.push(path[k]);
                                k = k + 1;
                            }
                            assert(cyc@ =~= path@.subrange(pos as int, path@.len() as int));
                            return Some(cyc);
                        },
                        None => {
                            proof {
                                lemma_walk_extend(g, path@, curr, start, keys, edges@);
                            }
                            path.push(curr);
                            curr = next;
                        },
                    }
                },
            }
        }
        s = s + 1;
        assert forall|a: int, c: Seq<u32>| 0 <= a < s && is_cycle(g, c) implies !#[trigger] c.contains(edges@[a].0) by {
            if a == s - 1 {
                assert(edges@[a].0 == start);
            }
        }
    }
    assert forall|c: Seq<u32>| !is_cycle(g, c) by {
        if is_cycle(g, c) {
            assert(g.contains_key(c[0]));
            let i = choose|i: int| 0 <= i < edges@.len() && (#[trigger] edges@[i]).0 == c[0];
            assert(c.contains(c[0]));
            assert(c.contains(edges@[i].0));
        }
    }
    None
}


proof fn lemma_mutex_index(mt: &MutexTable, i: int)
    requires
        mt.wf(),
        0 <= i < mt.mutexes@.len(),
    ensures
        has_mutex(mt.mutexes@, mt.mutexes@[i].id),
        mutex_index(mt.mutexes@, mt.mutexes@[i].id) == i,
{
    let id = mt.mutexes@[i].id;
    assert(has_mutex(mt.mutexes@, id));
    let c = mutex_index(mt.mutexes@, id);
    assert(0 <= c < mt.mutexes@.len() && mt.mutexes@[c].id == id);
    if c < i {} else if c > i {}
}

/// A mutex released by its owner: the first waiter takes it over.
pub open spec fn released(m: (u32, Seq<char>, Option<u32>, Seq<u32>)) -> (u32, Seq<char>, Option<u32>, Seq<u32>) {
    if m.3.len() > 0 {
        (m.0, m.1, Some(m.3[0]), m.3.drop_first())
    } else {
        (m.0, m.1, None, m.3)
    }
}

/// Every mutex held by `v` released.
pub open spec fn release_spec(vs: Seq<(u32, Seq<char>, Option<u32>, Seq<u32>)>, v: u32) -> Seq<(u32, Seq<char>, Option<u32>, Seq<u32>)> {
    vs.map_values(|m: (u32, Seq<char>, Option<u32>, Seq<u32>)| if m.2 == Some(v) { released(m) } else { m })
}

/// Process states after releasing the mutexes of `v` in order: each new owner becomes Ready.
pub open spec fn wake_spec(procs: Seq<crate::kernel::task::Process>, vs: Seq<(u32, Seq<char>, Option<u32>, Seq<u32>)>, v: u32) -> Seq<crate::kernel::task::Process>
    decreases vs.len(),
{
    if vs.len() == 0 {
        procs
    } else {
        let p = wake_spec(procs, vs.drop_last(), v);
        let m = vs.last();
        if m.2 == Some(v) && m.3.len() > 0 {
            set_state_spec(p, m.3[0], ProcessState::Ready)
        } else {
            p
        }
    }
}

/// Unlocking a mutex that processes wait for hands it to the process that has waited longest,
/// the first in arrival order, wakes that process, and leaves the other waiters queued in
/// the order they came.
pub proof fn lemma_unlock_hands_to_first_waiter(s: Seq<MutexInfo>, id: u32, o: u32)
    requires
        has_mutex(s, id),
        s[mutex_index(s, id)].owner == Some(o),
        s[mutex_index(s, id)].waiters@.len() > 0,
    ensures
        ({
            let old_m = s[mutex_index(s, id)];
            let w = old_m.waiters@;
            &&& unlock_spec(s, id, o) is Ok
            &&& unlock_spec(s, id, o)->Ok_0.1 == Some(w[0])
            &&& unlock_spec(s, id, o)->Ok_0.0.0 == old_m.id
            &&& unlock_spec(s, id, o)->Ok_0.0.1 == old_m.name@
            &&& unlock_spec(s, id, o)->Ok_0.0.2 == Some(w[0])
            &&& unlock_spec(s, id, o)->Ok_0.0.3.len() == w.len() - 1
            &&& forall|k: int| 0 <= k < w.len() - 1 ==> #[trigger] unlock_spec(s, id, o)->Ok_0.0.3[k] == w[k + 1]
        }),
{
}

/// Releasing a mutex on behalf of its owner passes it to the earliest waiter and keeps the
/// rest of the queue in order; with nobody waiting the mutex becomes free.
pub proof fn lemma_release_hands_to_first_waiter(m: (u32, Seq<char>, Option<u32>, Seq<u32>))
    ensures
        released(m).0 == m.0,
        released(m).1 == m.1,
        m.3.len() > 0 ==> released(m).2 == Some(m.3[0]),
        m.3.len() == 0 ==> released(m).2 is None,
        released(m).3.len() == if m.3.len() > 0 { m.3.len() - 1 } else { 0 },
        forall|k: int| 0 <= k < m.3.len() - 1 ==> #[trigger] released(m).3[k] == m.3[k + 1],
{
}

/// Releasing a single mutex held by `v` wakes exactly its earliest waiter.
pub proof fn lemma_wake_first_waiter(procs: Seq<crate::kernel::task::Process>, m: (u32, Seq<char>, Option<u32>, Seq<u32>), v: u32)
    requires
        m.2 == Some(v),
        m.3.len() > 0,
    ensures
        wake_spec(procs, seq![m], v) == set_state_spec(procs, m.3[0], ProcessState::Ready),
{
    assert(seq![m].drop_last() =~= Seq::<(u32, Seq<char>, Option<u32>, Seq<u32>)>::empty());
    assert(wake_spec(procs, seq![m].drop_last(), v) == procs);
}

/// Releases every mutex held by `victim`, waking the next waiter of each.
fn release_all(mt: &mut MutexTable, tt: &mut TaskTable, victim: u32)
    requires
        old(mt).wf(),
        old(tt).wf(),
    ensures
        final(mt).wf(),
        final(tt).wf(),
        final(mt).next_id == old(mt).next_id,
        final(tt).current_pid == old(tt).current_pid,
        final(tt).next_pid == old(tt).next_pid,
        mutexes_view(final(mt).mutexes@) == release_spec(mutexes_view(old(mt).mutexes@), victim),
        final(tt).procs@ == wake_spec(old(tt).procs@, mutexes_view(old(mt).mutexes@), victim),
{
    let ghost vs0 = mutexes_view(old(mt).mutexes@);
    let ghost rs = release_spec(vs0, victim);
    let mut i: usize = 0;
    while i < mt.mutexes.len()
        invariant
            mt.wf(),
            tt.wf(),
            mt.next_id == old(mt).next_id,
            tt.current_pid == old(tt).current_pid,
            tt.next_pid == old(tt).next_pid,
            vs0 == mutexes_view(old(mt).mutexes@),
            rs == release_spec(vs0, victim),
            i <= mt.mutexes@.len(),
            mt.mutexes@.len() == vs0.len(),
            forall|k: int| 0 <= k < i ==> (#[trigger] mutexes_view(mt.mutexes@)[k]) == rs[k],
            forall|k: int| i <= k < vs0.len() ==> (#[trigger] mutexes_view(mt.mutexes@)[k]) == vs0[k],
            tt.procs@ == wake_spec(old(tt).procs@, vs0.subrange(0, i as int), victim),
        decreases vs0.len() - i,
    {
        let ghost before = mutexes_view(mt.mutexes@);
        assert(before[i as int] == vs0[i as int]);
        assert(vs0.subrange(0, i + 1).drop_last() =~= vs0.subrange(0, i as int));
        if mt.mutexes[i].owner == Some(victim) {
            let id = mt.mutexes[i].id;
            proof {
                lemma_mutex_index(mt, i as int);
            }
            let _ = unlock_mutex(mt, tt, id, victim);
            proof {
                assert(mutexes_view(mt.mutexes@) == before.update(i as int, released(vs0[i as int])));
                assert forall|k: int| 0 <= k < i + 1 implies (#[trigger] mutexes_view(mt.mutexes@)[k]) == rs[k] by {
                    if k < i { assert(mutexes_view(mt.mutexes@)[k] == before[k]); }
                }
            }
        } else {
            assert(rs[i as int] == vs0[i as int]);
        }
        i = i + 1;
    }
    assert(mutexes_view(mt.mutexes@) =~= rs);
    assert(vs0.subrange(0, i as int) =~= vs0);
}

/// The message that names the process killed to break a deadlock.
pub open spec fn killed_message(v: u32) -> Seq<char> {
    "Killed PID "@ + decimal(v as nat) + " to break the deadlock cycle."@
}

/// Whether `v` lies on a cycle of `g`.
pub open spec fn on_cycle(g: Map<u32, u32>, v: u32) -> bool {
    exists|c: Seq<u32>| is_cycle(g, c) && c[0] == v
}

/// Breaks a deadlock: a process on a wait-for cycle releases every mutex it holds and is killed.
pub fn resolve_deadlock(mt: &mut MutexTable, tt: &mut TaskTable, mm: &mut MemoryManager) -> (r: Result<String, String>)
    requires
        old(mt).wf(),
        old(tt).wf(),
        old(mm).wf(),
    ensures
        final(mt).wf(),
        final(tt).wf(),
        final(mm).wf(),
        final(mt).next_id == old(mt).next_id,
        final(tt).current_pid == old(tt).current_pid,
        final(tt).next_pid == old(tt).next_pid,
        (forall|c: Seq<u32>| !is_cycle(wait_graph(old(mt).mutexes@), c)) ==> (r matches Err(e)
            && e@ == "No deadlock detected"@
            && mutexes_view(final(mt).mutexes@) == mutexes_view(old(mt).mutexes@)
            && final(tt).procs@ == old(tt).procs@
            && mem_view(*final(mm)) == mem_view(*old(mm))),
        (exists|c: Seq<u32>| is_cycle(wait_graph(old(mt).mutexes@), c)) ==> exists|v: u32| {
            let vs = mutexes_view(old(mt).mutexes@);
            let woken = wake_spec(old(tt).procs@, vs, v);
            &&& #[trigger] on_cycle(wait_graph(old(mt).mutexes@), v)
            &&& mutexes_view(final(mt).mutexes@) == release_spec(vs, v)
            &&& if v == 0 {
                r matches Err(e) && e@ == "Cannot kill idle process"@ && final(tt).procs@ == woken
                    && mem_view(*final(mm)) == mem_view(*old(mm))
            } else {
                &&& mem_view(*final(mm)) == free_space_spec(*old(mm), v)
                &&& if has_pid(woken, v) {
                    r matches Ok(msg) && msg@ == killed_message(v)
                        && final(tt).procs@ == set_state_spec(woken, v, ProcessState::Killed)
                } else {
                    r matches Err(e) && e@ == "Process not found"@ && final(tt).procs@ == woken
                }
            }
        },
{
    match detect_deadlock(mt) {
        None => Err(String::from_str("No deadlock detected")),
        Some(cycle) => {
            let victim = cycle[0];
            proof {
                assert(on_cycle(wait_graph(old(mt).mutexes@), victim));
            }
            release_all(mt, tt, victim);
            let ghost woken = tt.procs@;
            match kill_process(tt, mm, victim) {
                Err(e) => {
                    proof {
                        if victim != 0 {
                            assert(!has_pid(woken, victim));
                        }
                    }
                    Err(e)
                },
                Ok(()) => {
                    let mut msg: Vec<char> = Vec::new();
                    push_str(&mut msg, "Killed PID ");
                    push_decimal(&mut msg, victim as u64);
                    push_str(&mut msg, " to break the deadlock cycle.");
                    let out = chars_to_string(msg.as_slice());
                    Ok(out)
                },
            }
        },
    }
}


/// The mutex triple the dining-philosophers simulation leaves behind: philosopher `p_i` holds
/// chopstick `i` and waits for chopstick `i + 1` (the third waits for the first).
pub open spec fn philosopher_mutexes(m: u32, p: u32) -> Seq<(u32, Seq<char>, Option<u32>, Seq<u32>)> {
    seq![
        (m, "Chopstick 1"@, Some(p), seq![(p + 2) as u32]),
        ((m + 1) as u32, "Chopstick 2"@, Some((p + 1) as u32), seq![p]),
        ((m + 2) as u32, "Chopstick 3"@, Some((p + 2) as u32), seq![(p + 1) as u32]),
    ]
}

/// Dining philosophers: three chopstick mutexes and three philosophers who each take the left
/// chopstick and then block on the right one, a deadlock.
pub fn run_deadlock_simulation(mt: &mut MutexTable, tt: &mut TaskTable) -> (r: Result<(), String>)
    requires
        old(mt).wf(),
        old(tt).wf(),
        old(mt).next_id + 3 < u32::MAX,
        old(tt).next_pid + 3 < u32::MAX,
    ensures
        final(mt).wf(),
        final(tt).wf(),
        r is Ok,
        final(mt).next_id == old(mt).next_id + 3,
        final(tt).next_pid == old(tt).next_pid + 3,
        mutexes_view(final(mt).mutexes@) == mutexes_view(old(mt).mutexes@) + philosopher_mutexes(old(mt).next_id, old(tt).next_pid),
        final(tt).procs@.len() == old(tt).procs@.len() + 3,
        forall|k: int| 0 <= k < 3 ==> (#[trigger] final(tt).procs@[old(tt).procs@.len() + k]).pid == old(tt).next_pid + k
            && final(tt).procs@[old(tt).procs@.len() + k].state == ProcessState::Blocked,
{
    let m1 = match create_mutex(mt, "Chopstick 1") { Ok(v) => v, Err(e) => return Err(e) };
    let m2 = match create_mutex(mt, "Chopstick 2") { Ok(v) => v, Err(e) => return Err(e) };
    let m3 = match create_mutex(mt, "Chopstick 3") { Ok(v) => v, Err(e) => return Err(e) };
    let ghost n0 = old(tt).procs@.len();
    let pid1 = match create_process(tt, "Philosopher 1", ProcessPriority::Normal, Vec::new(), 1001) { Ok(v) => v, Err(e) => return Err(e) };
    let pid2 = match create_process(tt, "Philosopher 2", ProcessPriority::Normal, Vec::new(), 1001) { Ok(v) => v, Err(e) => return Err(e) };
    let pid3 = match create_process(tt, "Philosopher 3", ProcessPriority::Normal, Vec::new(), 1001) { Ok(v) => v, Err(e) => return Err(e) };
    let ghost vs = mutexes_view(mt.mutexes@);
    let ghost n = vs.len();
    proof {
        assert(vs[n - 3].0 == m1 && vs[n - 2].0 == m2 && vs[n - 1].0 == m3);
        lemma_mutex_index(mt, n - 3);
        lemma_mutex_index(mt, n - 2);
        lemma_mutex_index(mt, n - 1);
    }
    let ghost e: Seq<u32> = Seq::empty();
    let ghost c1 = "Chopstick 1"@;
    let ghost c2 = "Chopstick 2"@;
    let ghost c3 = "Chopstick 3"@;
    assert(vs[n - 3] == (m1, c1, None::<u32>, e));
    assert(vs[n - 2] == (m2, c2, None::<u32>, e));
    assert(vs[n - 1] == (m3, c3, None::<u32>, e));
    match lock_mutex(mt, tt, m1, pid1) { Ok(_) => {}, Err(e) => return Err(e) }
    let ghost vs1 = vs.update(n - 3, (m1, c1, Some(pid1), e));
    assert(mutexes_view(mt.mutexes@) == vs1);
    proof {
        lemma_mutex_index(mt, n - 2);
        assert(mutexes_view(mt.mutexes@)[n - 2] == mutex_view(mt.mutexes@[n - 2]));
        assert(mt.mutexes@[n - 2].id == m2);
        assert(mt.mutexes@[n - 2].owner is None);
        assert(lock_spec(mt.mutexes@, m2, pid2) is Ok);
    }
    match lock_mutex(mt, tt, m2, pid2) { Ok(_) => {}, Err(e) => return Err(e) }
    let ghost vs2 = vs1.update(n - 2, (m2, c2, Some(pid2), e));
    assert(mutexes_view(mt.mutexes@) == vs2);
    proof {
        lemma_mutex_index(mt, n - 1);
        assert(mutexes_view(mt.mutexes@)[n - 1] == mutex_view(mt.mutexes@[n - 1]));
        assert(mt.mutexes@[n - 1].id == m3);
        assert(lock_spec(mt.mutexes@, m3, pid3) is Ok);
    }
    match lock_mutex(mt, tt, m3, pid3) { Ok(_) => {}, Err(e) => return Err(e) }
    let ghost vs3 = vs2.update(n - 1, (m3, c3, Some(pid3), e));
    assert(mutexes_view(mt.mutexes@) == vs3);
    proof {
        lemma_mutex_index(mt, n - 2);
        assert(mutexes_view(mt.mutexes@)[n - 2] == mutex_view(mt.mutexes@[n - 2]));
        assert(mt.mutexes@[n - 2].id == m2);
        assert(lock_spec(mt.mutexes@, m2, pid1) is Ok);
    }
    match lock_mutex(mt, tt, m2, pid1) { Ok(_) => {}, Err(e) => return Err(e) }
    proof { assert(!e.contains(pid1)); assert(e.push(pid1) =~= seq![pid1]); }
    let ghost vs4 = vs3.update(n - 2, (m2, c2, Some(pid2), seq![pid1]));
    assert(mutexes_view(mt.mutexes@) == vs4);
    proof {
        lemma_mutex_index(mt, n - 1);
        assert(mutexes_view(mt.mutexes@)[n - 1] == mutex_view(mt.mutexes@[n - 1]));
        assert(mt.mutexes@[n - 1].id == m3);
        assert(lock_spec(mt.mutexes@, m3, pid2) is Ok);
    }
    match lock_mutex(mt, tt, m3, pid2) { Ok(_) => {}, Err(e) => return Err(e) }
    proof { assert(!e.contains(pid2)); assert(e.push(pid2) =~= seq![pid2]); }
    let ghost vs5 = vs4.update(n - 1, (m3, c3, Some(pid3), seq![pid2]));
    assert(mutexes_view(mt.mutexes@) == vs5);
    proof {
        lemma_mutex_index(mt, n - 3);
        assert(mutexes_view(mt.mutexes@)[n - 3] == mutex_view(mt.mutexes@[n - 3]));
        assert(mt.mutexes@[n - 3].id == m1);
        assert(lock_spec(mt.mutexes@, m1, pid3) is Ok);
    }
    match lock_mutex(mt, tt, m1, pid3) { Ok(_) => {}, Err(e) => return Err(e) }
    proof { assert(!e.contains(pid3)); assert(e.push(pid3) =~= seq![pid3]); }
    let ghost vs6 = vs5.update(n - 3, (m1, c1, Some(pid1), seq![pid3]));
    assert(mutexes_view(mt.mutexes@) == vs6);
    proof {
        assert(mutexes_view(mt.mutexes@) =~= mutexes_view(old(mt).mutexes@) + philosopher_mutexes(old(mt).next_id, old(tt).next_pid));
        assert forall|k: int| 0 <= k < 3 implies (#[trigger] tt.procs@[n0 + k]).pid == old(tt).next_pid + k
            && tt.procs@[n0 + k].state == ProcessState::Blocked by {
        }
    }
    Ok(())
}

proof fn lemma_add_waiters_view(g: Map<u32, u32>, ws: Seq<u32>, o: u32, k: u32)
    ensures
        ws.contains(k) ==> add_waiters(g, ws, o).contains_key(k) && add_waiters(g, ws, o)[k] == o,
        !ws.contains(k) ==> (add_waiters(g, ws, o).contains_key(k) == g.contains_key(k))
            && (g.contains_key(k) ==> add_waiters(g, ws, o)[k] == g[k]),
    decreases ws.len(),
{
    if ws.len() > 0 {
        lemma_add_waiters_view(g, ws.drop_last(), o, k);
        if ws.contains(k) && ws.last() != k {
            let i = choose|i: int| 0 <= i < ws.len() && ws[i] == k;
            assert(ws.drop_last()[i] == k);
        }
        if !ws.contains(k) {
            assert(!ws.drop_last().contains(k)) by {
                if ws.drop_last().contains(k) {
                    let i = choose|i: int| 0 <= i < ws.drop_last().len() && ws.drop_last()[i] == k;
                    assert(ws[i] == k);
                }
            }
            assert(ws.last() != k) by {
                assert(ws[ws.len() - 1] == ws.last());
            }
        }
    }
}

/// After the dining-philosophers simulation the three philosophers form a wait-for cycle,
/// whatever mutexes existed before.
pub proof fn lemma_simulation_deadlocks(s: Seq<MutexInfo>, m: u32, p: u32)
    requires
        s.len() >= 3,
        p + 3 < u32::MAX,
        mutexes_view(s).subrange(s.len() - 3, s.len() as int) == philosopher_mutexes(m, p),
    ensures
        is_cycle(wait_graph(s), seq![p, (p + 1) as u32, (p + 2) as u32]),
{
    let n = s.len() as int;
    let t1 = s.drop_last();
    let t2 = t1.drop_last();
    let t3 = t2.drop_last();
    assert(mutexes_view(s)[n - 3] == philosopher_mutexes(m, p)[0]);
    assert(mutexes_view(s)[n - 2] == philosopher_mutexes(m, p)[1]);
    assert(mutexes_view(s)[n - 1] == philosopher_mutexes(m, p)[2]);
    let g3 = wait_graph(t3);
    let g2 = wait_graph(t2);
    let g1 = wait_graph(t1);
    let g = wait_graph(s);
    assert(t2.last() == s[n - 3]);
    assert(t1.last() == s[n - 2]);
    assert(s.last() == s[n - 1]);
    assert(s[n - 3].waiters@ == seq![(p + 2) as u32]);
    assert(s[n - 2].waiters@ == seq![p]);
    assert(s[n - 1].waiters@ == seq![(p + 1) as u32]);
    assert(g2 == add_waiters(g3, seq![(p + 2) as u32], p));
    assert(g1 == add_waiters(g2, seq![p], (p + 1) as u32));
    assert(g == add_waiters(g1, seq![(p + 1) as u32], (p + 2) as u32));
    let w1 = seq![(p + 2) as u32];
    let w2 = seq![p];
    let w3 = seq![(p + 1) as u32];
    assert(w1[0] == (p + 2) as u32 && w1.len() == 1);
    assert(w2[0] == p && w2.len() == 1);
    assert(w3[0] == (p + 1) as u32 && w3.len() == 1);
    assert(w1.contains((p + 2) as u32));
    assert(w2.contains(p));
    assert(w3.contains((p + 1) as u32));
    assert(!w2.contains((p + 2) as u32)) by {
        if w2.contains((p + 2) as u32) { let i = choose|i: int| 0 <= i < w2.len() && w2[i] == (p + 2) as u32; }
    }
    assert(!w3.contains(p)) by {
        if w3.contains(p) { let i = choose|i: int| 0 <= i < w3.len() && w3[i] == p; }
    }
    assert(!w3.contains((p + 2) as u32)) by {
        if w3.contains((p + 2) as u32) { let i = choose|i: int| 0 <= i < w3.len() && w3[i] == (p + 2) as u32; }
    }
    lemma_add_waiters_view(g3, w1, p, (p + 2) as u32);
    lemma_add_waiters_view(g2, w2, (p + 1) as u32, p);
    lemma_add_waiters_view(g2, w2, (p + 1) as u32, (p + 2) as u32);
    lemma_add_waiters_view(g1, w3, (p + 2) as u32, p);
    lemma_add_waiters_view(g1, w3, (p + 2) as u32, (p + 1) as u32);
    lemma_add_waiters_view(g1, w3, (p + 2) as u32, (p + 2) as u32);
    let c = seq![p, (p + 1) as u32, (p + 2) as u32];
    assert(g.contains_key(p) && g[p] == (p + 1) as u32);
    assert(g.contains_key((p + 1) as u32) && g[(p + 1) as u32] == (p + 2) as u32);
    assert(g.contains_key((p + 2) as u32) && g[(p + 2) as u32] == p);
    assert forall|i: int| 0 <= i < c.len() implies g.contains_key(#[trigger] c[i]) && g[c[i]] == c[(i + 1) % (c.len() as int)] by {
        assert(c.len() == 3);
        if i == 0 {
            assert((i + 1) % 3 == 1);
        } else if i == 1 {
            assert((i + 1) % 3 == 2);
        } else {
            assert(i == 2);
            assert((i + 1) % 3 == 0);
        }
    }
}

} // verus!
