//! Keyboard event queue (a fixed ring buffer) and mouse state.
use vstd::prelude::*;

verus! {

/// Capacity of the keyboard ring buffer.
pub const KEY_QUEUE_CAPACITY: usize = 256;

/// A decoded key.
#[derive(Debug, Clone, Copy, PartialEq, Eq, Structural)]
pub enum KeyCode {
    Char(char),
    Enter,
    Backspace,
    Tab,
    Up,
    Down,
    Left,
    Right,
    Escape,
    Control(char),
    NoKey,
}

/// A key press with its modifier state.
#[derive(Debug, Clone, Copy, PartialEq, Eq, Structural)]
pub struct KeyEvent {
    pub code: KeyCode,
    pub shift: bool,
    pub ctrl: bool,
    pub alt: bool,
}

/// `x` taken back into the ring when it ran one lap past its end.
pub open spec fn wrap(x: int) -> int {
    if x < KEY_QUEUE_CAPACITY { x } else { x - KEY_QUEUE_CAPACITY }
}

/// The ring buffer behind the keyboard queue.
pub struct KeyQueue {
    pub buffer: Vec<KeyEvent>,
    pub head: usize,
    pub tail: usize,
    pub count: usize,
}

impl KeyQueue {
    /// The buffer has the full capacity and `tail` is `count` slots past `head`.
    pub open spec fn wf(&self) -> bool {
        &&& self.buffer@.len() == KEY_QUEUE_CAPACITY
        &&& self.head < KEY_QUEUE_CAPACITY
        &&& self.count <= KEY_QUEUE_CAPACITY
        &&& self.tail == wrap(self.head + self.count) || (self.count == KEY_QUEUE_CAPACITY && self.tail == self.head)
        &&& self.tail < KEY_QUEUE_CAPACITY
    }

    /// The queued events, oldest first.
    pub open spec fn view(&self) -> Seq<KeyEvent> {
        Seq::new(self.count as nat, |i: int| self.buffer@[wrap(self.head + i)])
    }

    /// An empty queue.
    pub fn new() -> (q: KeyQueue)
        ensures
            q.wf(),
            q.view() == Seq::<KeyEvent>::empty(),
    {
        let blank = KeyEvent { code: KeyCode::NoKey, shift: false, ctrl: false, alt: false };
        let buffer = vec![blank; KEY_QUEUE_CAPACITY];
        let q = KeyQueue { buffer, head: 0, tail: 0, count: 0 };
        assert(q.view() =~= Seq::<KeyEvent>::empty());
        q
    }

    /// Appends `event`; a full queue drops it.
    pub fn push(&mut self, event: KeyEvent)
        requires
            old(self).wf(),
        ensures
            final(self).wf(),
            old(self).view().len() < KEY_QUEUE_CAPACITY ==> final(self).view() == old(self).view().push(event),
            old(self).view().len() >= KEY_QUEUE_CAPACITY ==> final(self).view() == old(self).view(),
    {
        if self.count < KEY_QUEUE_CAPACITY {
            let ghost v0 = self.view();
            let ghost b0 = self.buffer@;
            let t = self.tail;
            self.buffer.set(t, event);
            self.tail = (t + 1) % KEY_QUEUE_CAPACITY;
            self.count = self.count + 1;
            assert(self.tail == wrap(self.head + self.count));
            assert forall|i: int| 0 <= i < v0.len() implies #[trigger] self.view()[i] == v0[i] by {
                assert(wrap(self.head + i) != t);
                assert(self.buffer@[wrap(self.head + i)] == b0[wrap(self.head + i)]);
            }
            assert(self.view() =~= v0.push(event));
        }
    }

    /// Removes and returns the oldest event.
    pub fn pop(&mut self) -> (r: Option<KeyEvent>)
        requires
            old(self).wf(),
        ensures
            final(self).wf(),
            old(self).view().len() == 0 ==> r is None && final(self).view() == old(self).view(),
            old(self).view().len() > 0 ==> r == Some(old(self).view()[0])
                && final(self).view() == old(self).view().drop_first(),
    {
        if self.count > 0 {
            let ghost v0 = self.view();
            let event = self.buffer[self.head];
            assert(event == v0[0]);
            self.head = (self.head + 1) % KEY_QUEUE_CAPACITY;
            self.count = self.count - 1;
            assert forall|i: int| 0 <= i < self.count implies #[trigger] self.view()[i] == v0.drop_first()[i] by {
                assert(v0.drop_first()[i] == v0[i + 1]);
            }
            assert(self.view() =~= v0.drop_first());
            Some(event)
        } else {
            None
        }
    }

    /// Empties the queue.
    pub fn clear(&mut self)
        requires
            old(self).wf(),
        ensures
            final(self).wf(),
            final(self).view() == Seq::<KeyEvent>::empty(),
    {
        self.head = 0;
        self.tail = 0;
        self.count = 0;
        assert(self.view() =~= Seq::<KeyEvent>::empty());
    }
}

/// The queue `q` after `evs` are pushed one after another, each dropped when the queue is full.
pub open spec fn pushed_all(q: Seq<KeyEvent>, evs: Seq<KeyEvent>) -> Seq<KeyEvent>
    decreases evs.len(),
{
    if evs.len() == 0 {
        q
    } else {
        let p = pushed_all(q, evs.drop_last());
        if p.len() < KEY_QUEUE_CAPACITY { p.push(evs.last()) } else { p }
    }
}

/// The keyboard queue is first in, first out and holds 256 events: pushing `evs` onto a queue
/// holding `q` keeps the first 256 of `q` followed by `evs`, in order, and drops the rest.
pub proof fn lemma_key_queue_keeps_first(q: Seq<KeyEvent>, evs: Seq<KeyEvent>)
    requires
        q.len() <= KEY_QUEUE_CAPACITY,
    ensures
        pushed_all(q, evs) == (q + evs).take(
            if q.len() + evs.len() <= KEY_QUEUE_CAPACITY { (q.len() + evs.len()) as int } else { KEY_QUEUE_CAPACITY as int }),
    decreases evs.len(),
{
    if evs.len() > 0 {
        let e0 = evs.drop_last();
        lemma_key_queue_keeps_first(q, e0);
        let p = pushed_all(q, e0);
        assert((q + e0) =~= (q + evs).drop_last());
        if p.len() < KEY_QUEUE_CAPACITY {
            assert(p.push(evs.last()) =~= (q + evs).take((q.len() + evs.len()) as int));
        } else {
            assert(p =~= (q + evs).take(KEY_QUEUE_CAPACITY as int));
        }
    } else {
        assert(q + evs =~= q);
        assert(q.take(q.len() as int) =~= q);
    }
}

/// What `j` successive reads of a queue holding `q` return, as `read_key_event` gives them:
/// the oldest event each time, or nothing once the queue is empty.
pub open spec fn reads_of(q: Seq<KeyEvent>, j: nat) -> Seq<Option<KeyEvent>>
    decreases j,
{
    if j == 0 {
        Seq::empty()
    } else if q.len() == 0 {
        seq![None::<KeyEvent>] + reads_of(q, (j - 1) as nat)
    } else {
        seq![Some(q[0])] + reads_of(q.drop_first(), (j - 1) as nat)
    }
}

/// Reading back what was queued: after `evs` are pushed into an empty queue with no read in
/// between, successive reads return the first 256 of them (or all, when fewer), in the order
/// they were pushed, and then nothing.
pub proof fn lemma_reads_after_pushes(evs: Seq<KeyEvent>)
    ensures
        ({
            let m: int = if evs.len() <= KEY_QUEUE_CAPACITY { evs.len() as int } else { KEY_QUEUE_CAPACITY as int };
            reads_of(pushed_all(Seq::empty(), evs), (m + 1) as nat)
                == evs.take(m).map_values(|e: KeyEvent| Some(e)).push(None::<KeyEvent>)
        }),
{
    let m: int = if evs.len() <= KEY_QUEUE_CAPACITY { evs.len() as int } else { KEY_QUEUE_CAPACITY as int };
    lemma_key_queue_keeps_first(Seq::empty(), evs);
    assert(Seq::<KeyEvent>::empty() + evs =~= evs);
    lemma_reads_of_queue(evs.take(m));
}

/// Reading a queue holding `q` once more than its length returns each event in order, then nothing.
proof fn lemma_reads_of_queue(q: Seq<KeyEvent>)
    ensures
        reads_of(q, (q.len() + 1) as nat) == q.map_values(|e: KeyEvent| Some(e)).push(None::<KeyEvent>),
    decreases q.len(),
{
    if q.len() == 0 {
        reveal_with_fuel(reads_of, 2);
        assert(reads_of(q, 1) =~= seq![None::<KeyEvent>]);
        assert(q.map_values(|e: KeyEvent| Some(e)).push(None::<KeyEvent>) =~= seq![None::<KeyEvent>]);
    } else {
        lemma_reads_of_queue(q.drop_first());
        assert(reads_of(q, (q.len() + 1) as nat) == seq![Some(q[0])] + reads_of(q.drop_first(), q.len() as nat));
        assert(seq![Some(q[0])] + q.drop_first().map_values(|e: KeyEvent| Some(e)).push(None::<KeyEvent>)
            =~= q.map_values(|e: KeyEvent| Some(e)).push(None::<KeyEvent>));
    }
}

/// Keyboard queue and mouse `(x, y, left_clicked)`.
pub struct InputState {
    pub keyboard: KeyQueue,
    pub mouse: (i32, i32, bool),
}

/// An empty keyboard queue and the mouse at the origin, unclicked.
pub fn init_input() -> (s: InputState)
    ensures
        s.keyboard.wf(),
        s.keyboard.view() == Seq::<KeyEvent>::empty(),
        s.mouse == (0i32, 0i32, false),
{
    InputState { keyboard: KeyQueue::new(), mouse: (0, 0, false) }
}

/// Queues a key event (dropped when the queue is full).
pub fn push_key_event(s: &mut InputState, event: KeyEvent)
    requires
        old(s).keyboard.wf(),
    ensures
        final(s).keyboard.wf(),
        final(s).mouse == old(s).mouse,
        old(s).keyboard.view().len() < KEY_QUEUE_CAPACITY ==> final(s).keyboard.view() == old(s).keyboard.view().push(event),
        old(s).keyboard.view().len() >= KEY_QUEUE_CAPACITY ==> final(s).keyboard.view() == old(s).keyboard.view(),
{
    s.keyboard.push(event);
}

/// Takes the oldest key event, if any (never blocks).
pub fn read_key_event(s: &mut InputState) -> (r: Option<KeyEvent>)
    requires
        old(s).keyboard.wf(),
    ensures
        final(s).keyboard.wf(),
        final(s).mouse == old(s).mouse,
        old(s).keyboard.view().len() == 0 ==> r is None && final(s).keyboard.view() == old(s).keyboard.view(),
        old(s).keyboard.view().len() > 0 ==> r == Some(old(s).keyboard.view()[0])
            && final(s).keyboard.view() == old(s).keyboard.view().drop_first(),
{
    s.keyboard.pop()
}

/// Discards every queued key event.
pub fn flush_keyboard(s: &mut InputState)
    requires
        old(s).keyboard.wf(),
    ensures
        final(s).keyboard.wf(),
        final(s).keyboard.view() == Seq::<KeyEvent>::empty(),
        final(s).mouse == old(s).mouse,
{
    s.keyboard.clear();
}

/// Records the mouse position and button.
pub fn update_mouse(s: &mut InputState, x: i32, y: i32, clicked: bool)
    ensures
        final(s).mouse == (x, y, clicked),
        final(s).keyboard == old(s).keyboard,
{
    s.mouse = (x, y, clicked);
}

/// The last recorded mouse position and button.
pub fn read_mouse(s: &InputState) -> (r: (i32, i32, bool))
    ensures
        r == s.mouse,
{
    s.mouse
}

/// Key events come out in the order they went in: reading after queueing into a queue with
/// room gives the oldest pending event, or the new one when none was pending.
pub proof fn lemma_key_queue_fifo(q: Seq<KeyEvent>, e: KeyEvent)
    requires
        q.len() < KEY_QUEUE_CAPACITY,
    ensures
        q.push(e)[0] == if q.len() == 0 { e } else { q[0] },
        q.push(e).drop_first() == if q.len() == 0 { Seq::<KeyEvent>::empty() } else { q.drop_first().push(e) },
{
    if q.len() == 0 {
        assert(q.push(e).drop_first() =~= Seq::<KeyEvent>::empty());
    } else {
        assert(q.push(e).drop_first() =~= q.drop_first().push(e));
    }
}

} // verus!
