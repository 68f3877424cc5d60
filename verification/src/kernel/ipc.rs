//! Named message queues for inter-process communication.
use vstd::prelude::*;

verus! {

/// Most messages a queue keeps; sending to a full queue drops the oldest.
pub const MAX_QUEUE_MESSAGES: usize = 50;

/// A named FIFO of text messages.
#[derive(Debug)]
pub struct MessageQueue {
    pub name: String,
    pub messages: Vec<String>,
}

/// All message queues, in creation order; names are unique.
pub struct IpcQueues {
    pub queues: Vec<MessageQueue>,
}

/// The messages of a queue as character sequences.
pub open spec fn msgs_view(v: Seq<String>) -> Seq<Seq<char>> {
    v.map_values(|s: String| s@)
}

/// The abstract value of all queues: `(name, messages)` pairs.
pub open spec fn queues_view(qs: Seq<MessageQueue>) -> Seq<(Seq<char>, Seq<Seq<char>>)> {
    qs.map_values(|q: MessageQueue| (q.name@, msgs_view(q.messages@)))
}

impl IpcQueues {
    /// Queue names are unique and queues hold at most `MAX_QUEUE_MESSAGES` messages.
    pub open spec fn wf(&self) -> bool {
        &&& forall|i: int, j: int| 0 <= i < self.queues@.len() && 0 <= j < self.queues@.len() && i != j
            ==> self.queues@[i].name@ != self.queues@[j].name@
        &&& forall|i: int| 0 <= i < self.queues@.len() ==> (#[trigger] self.queues@[i]).messages@.len() <= MAX_QUEUE_MESSAGES
    }
}

/// Whether a queue is named `name`.
pub open spec fn has_queue(qs: Seq<MessageQueue>, name: Seq<char>) -> bool {
    exists|i: int| 0 <= i < qs.len() && qs[i].name@ == name
}

/// Index of the queue named `name` (meaningful when `has_queue`).
pub open spec fn queue_index(qs: Seq<MessageQueue>, name: Seq<char>) -> int {
    choose|i: int| 0 <= i < qs.len() && qs[i].name@ == name
}

/// Messages after sending `x`: appended, the oldest dropped when the queue is full.
pub open spec fn send_spec(q: Seq<Seq<char>>, x: Seq<char>) -> Seq<Seq<char>> {
    if q.len() >= MAX_QUEUE_MESSAGES { q.drop_first().push(x) } else { q.push(x) }
}

/// A receive: the oldest message, if any, and what remains.
pub open spec fn recv_spec(q: Seq<Seq<char>>) -> (Option<Seq<char>>, Seq<Seq<char>>) {
    if q.len() == 0 { (None, q) } else { (Some(q[0]), q.drop_first()) }
}

/// No queues yet.
pub fn init_ipc() -> (iq: IpcQueues)
    ensures
        iq.wf(),
        iq.queues@.len() == 0,
{
    IpcQueues { queues: Vec::new() }
}

/// Index of the queue named `name`, if any.
fn find_queue(iq: &IpcQueues, name: &String) -> (r: Option<usize>)
    requires
        iq.wf(),
    ensures
        r matches Some(i) ==> i < iq.queues@.len() && iq.queues@[i as int].name@ == name@
            && has_queue(iq.queues@, name@) && queue_index(iq.queues@, name@) == i,
        r is None ==> !has_queue(iq.queues@, name@),
{
    let mut i: usize = 0;
    while i < iq.queues.len()
        invariant
            iq.wf(),
            i <= iq.queues@.len(),
            forall|k: int| 0 <= k < i ==> iq.queues@[k].name@ != name@,
        decreases iq.queues@.len() - i,
    {
        if iq.queues[i].name == *name {
            proof {
                assert(has_queue(iq.queues@, name@));
                let c = queue_index(iq.queues@, name@);
                assert(0 <= c < iq.queues@.len() && iq.queues@[c].name@ == name@);
                if c != i {
                    assert(iq.queues@[c].name@ != iq.queues@[i as int].name@);
                }
            }
            return Some(i);
        }
        i = i + 1;
    }
    None
}

/// Creates an empty queue named `name`; a second queue of the same name is refused.
pub fn create_queue(iq: &mut IpcQueues, name: &str) -> (r: Result<(), String>)
    requires
        old(iq).wf(),
    ensures
        final(iq).wf(),
        has_queue(old(iq).queues@, name@) ==> (r matches Err(e) && e@ == "Queue already exists"@)
            && queues_view(final(iq).queues@) == queues_view(old(iq).queues@),
        !has_queue(old(iq).queues@, name@) ==> r is Ok
            && queues_view(final(iq).queues@) == queues_view(old(iq).queues@).push((name@, Seq::<Seq<char>>::empty())),
{
    let n = String::from_str(name);
    match find_queue(iq, &n) {
        Some(_) => Err(String::from_str("Queue already exists")),
        None => {
            let ghost q0 = iq.queues@;
            iq.queues.push(MessageQueue { name: n, messages: Vec::new() });
            proof {
                let q = iq.queues@;
                assert forall|i: int, j: int| 0 <= i < q.len() && 0 <= j < q.len() && i != j implies q[i].name@ != q[j].name@ by {
                    if i == q.len() - 1 { assert(q[j] == q0[j]); }
                    else if j == q.len() - 1 { assert(q[i] == q0[i]); }
                    else { assert(q[i] == q0[i]); assert(q[j] == q0[j]); }
                }
                assert forall|i: int| 0 <= i < q.len() implies (#[trigger] q[i]).messages@.len() <= MAX_QUEUE_MESSAGES by {
                    if i < q.len() - 1 { assert(q[i] == q0[i]); }
                }
                assert(msgs_view(Seq::<String>::empty()) =~= Seq::<Seq<char>>::empty());
                assert(queues_view(q) =~= queues_view(q0).push((name@, Seq::<Seq<char>>::empty())));
            }
            Ok(())
        },
    }
}

/// Appends `msg` to queue `name`, dropping the oldest message when the queue is full.
pub fn send_message(iq: &mut IpcQueues, name: &str, msg: String) -> (r: Result<(), String>)
    requires
        old(iq).wf(),
    ensures
        final(iq).wf(),
        !has_queue(old(iq).queues@, name@) ==> (r matches Err(e) && e@ == "Queue not found"@)
            && queues_view(final(iq).queues@) == queues_view(old(iq).queues@),
        has_queue(old(iq).queues@, name@) ==> r is Ok && ({
            let i = queue_index(old(iq).queues@, name@);
            queues_view(final(iq).queues@) == queues_view(old(iq).queues@).update(
                i, (name@, send_spec(msgs_view(old(iq).queues@[i].messages@), msg@)))
        }),
{
    let n = String::from_str(name);
    match find_queue(iq, &n) {
        None => Err(String::from_str("Queue not found")),
        Some(i) => {
            let ghost q0 = iq.queues@;
            let mut q = iq.queues.remove(i);
            let ghost m0 = q.messages@;
            if q.messages.len() >= MAX_QUEUE_MESSAGES {
                q.messages.remove(0);
            }
            q.messages.push(msg);
            proof {
                assert(m0.len() <= MAX_QUEUE_MESSAGES) by { assert(q0[i as int].messages@ == m0); }
                assert(msgs_view(q.messages@) =~= send_spec(msgs_view(m0), msg@));
            }
            iq.queues.insert(i, q);
            proof {
                let nq = iq.queues@;
                assert(nq =~= q0.update(i as int, nq[i as int]));
                assert forall|a: int, b: int| 0 <= a < nq.len() && 0 <= b < nq.len() && a != b implies nq[a].name@ != nq[b].name@ by {
                    assert(nq[a].name@ == q0[a].name@);
                    assert(nq[b].name@ == q0[b].name@);
                }
                assert forall|a: int| 0 <= a < nq.len() implies (#[trigger] nq[a]).messages@.len() <= MAX_QUEUE_MESSAGES by {
                    if a != i { assert(nq[a] == q0[a]); }
                }
                assert(queues_view(nq) =~= queues_view(q0).update(i as int, (name@, send_spec(msgs_view(m0), msg@))));
            }
            Ok(())
        },
    }
}

/// Takes the oldest message of queue `name` (`Ok(None)` when it is empty).
pub fn recv_message(iq: &mut IpcQueues, name: &str) -> (r: Result<Option<String>, String>)
    requires
        old(iq).wf(),
    ensures
        final(iq).wf(),
        !has_queue(old(iq).queues@, name@) ==> (r matches Err(e) && e@ == "Queue not found"@)
            && queues_view(final(iq).queues@) == queues_view(old(iq).queues@),
        has_queue(old(iq).queues@, name@) ==> ({
            let i = queue_index(old(iq).queues@, name@);
            let (got, rest) = recv_spec(msgs_view(old(iq).queues@[i].messages@));
            &&& r matches Ok(o) && match o {
                Some(s) => got == Some(s@),
                None => got is None,
            }
            &&& queues_view(final(iq).queues@) == queues_view(old(iq).queues@).update(i, (name@, rest))
        }),
{
    let n = String::from_str(name);
    match find_queue(iq, &n) {
        None => Err(String::from_str("Queue not found")),
        Some(i) => {
            if iq.queues[i].messages.len() == 0 {
                proof {
                    let q0 = iq.queues@;
                    assert(queues_view(q0) =~= queues_view(q0).update(i as int, (name@, msgs_view(q0[i as int].messages@))));
                }
                return Ok(None);
            }
            let ghost q0 = iq.queues@;
            let mut q = iq.queues.remove(i);
            let ghost m0 = q.messages@;
            let m = q.messages.remove(0);
            proof {
                assert(msgs_view(q.messages@) =~= msgs_view(m0).drop_first());
            }
            iq.queues.insert(i, q);
            proof {
                let nq = iq.queues@;
                assert(nq =~= q0.update(i as int, nq[i as int]));
                assert forall|a: int, b: int| 0 <= a < nq.len() && 0 <= b < nq.len() && a != b implies nq[a].name@ != nq[b].name@ by {
                    assert(nq[a].name@ == q0[a].name@);
                    assert(nq[b].name@ == q0[b].name@);
                }
                assert forall|a: int| 0 <= a < nq.len() implies (#[trigger] nq[a]).messages@.len() <= MAX_QUEUE_MESSAGES by {
                    if a != i { assert(nq[a] == q0[a]); }
                }
                assert(queues_view(nq) =~= queues_view(q0).update(i as int, (name@, msgs_view(m0).drop_first())));
            }
            Ok(Some(m))
        },
    }
}

/// A copy of a list of messages.
fn copy_strings(v: &Vec<String>) -> (r: Vec<String>)
    ensures
        msgs_view(r@) == msgs_view(v@),
{
    let mut r: Vec<String> = Vec::new();
    let mut i: usize = 0;
    while i < v.len()
        invariant
            i <= v@.len(),
            msgs_view(r@) == msgs_view(v@.subrange(0, i as int)),
        decreases v@.len() - i,
    {
        let ghost prev = r@;
        r.push(v[i].clone());
        i = i + 1;
        assert(msgs_view(r@) =~= msgs_view(prev).push(v@[i - 1]@));
        assert(msgs_view(v@.subrange(0, i as int)) =~= msgs_view(v@.subrange(0, i - 1)).push(v@[i - 1]@));
    }
    assert(v@.subrange(0, i as int) =~= v@);
    r
}

/// Every queue as `(name, pending count, messages)`, in creation order.
pub fn get_queues(iq: &IpcQueues) -> (r: Vec<(String, usize, Vec<String>)>)
    ensures
        r@.len() == iq.queues@.len(),
        forall|i: int| 0 <= i < r@.len() ==> (#[trigger] r@[i]).0@ == iq.queues@[i].name@
            && r@[i].1 == iq.queues@[i].messages@.len()
            && msgs_view(r@[i].2@) == msgs_view(iq.queues@[i].messages@),
{
    let mut r: Vec<(String, usize, Vec<String>)> = Vec::new();
    let mut i: usize = 0;
    while i < iq.queues.len()
        invariant
            i <= iq.queues@.len(),
            r@.len() == i,
            forall|k: int| 0 <= k < i ==> (#[trigger] r@[k]).0@ == iq.queues@[k].name@
                && r@[k].1 == iq.queues@[k].messages@.len()
                && msgs_view(r@[k].2@) == msgs_view(iq.queues@[k].messages@),
        decreases iq.queues@.len() - i,
    {
        let q = &iq.queues[i];
        r.push((q.name.clone(), q.messages.len(), copy_strings(&q.messages)));
        i = i + 1;
    }
    r
}

/// Messages come out in the order they went in: a receive after a send to a queue with room
/// gives the oldest pending message, or the one just sent when none was pending.
pub proof fn lemma_queue_fifo(q: Seq<Seq<char>>, x: Seq<char>)
    requires
        q.len() < MAX_QUEUE_MESSAGES,
    ensures
        recv_spec(send_spec(q, x)).0 == Some(if q.len() == 0 { x } else { q[0] }),
        recv_spec(send_spec(q, x)).1 == if q.len() == 0 { Seq::<Seq<char>>::empty() } else { q.drop_first().push(x) },
{
    if q.len() > 0 {
        assert(q.push(x).drop_first() =~= q.drop_first().push(x));
    } else {
        assert(q.push(x).drop_first() =~= Seq::<Seq<char>>::empty());
    }
}

} // verus!
