//! The shell's process listings: `ps` and `top`.
use vstd::prelude::*;
use crate::text::{chars_to_string, push_str, push_chars, decimal};
use crate::kernel::task::{TaskTable, Process, ProcessState, get_process_list};
use crate::shell::format::{pad_right, state_name, priority_name, push_padded_right, decimal_chars, state_chars,
    priority_chars};

verus! {

/// Who a process runs as, in the listings.
pub open spec fn user_label(uid: u32) -> Seq<char> {
    if uid == 0 { "root"@ } else { "student"@ }
}

/// One row of `ps`.
pub open spec fn ps_line(p: Process) -> Seq<char> {
    pad_right(decimal(p.pid as nat), 4) + " "@ + pad_right(user_label(p.owner_uid), 7) + " "@
        + pad_right(priority_name(p.priority), 9) + " "@ + pad_right(state_name(p.state), 9) + " "@
        + pad_right(decimal(p.cpu_ticks as nat), 10) + " "@ + p.name@ + "\n"@
}

/// The rows of `ps` for the processes that are not killed.
pub open spec fn ps_lines(procs: Seq<Process>) -> Seq<char>
    decreases procs.len(),
{
    if procs.len() == 0 {
        Seq::empty()
    } else {
        ps_lines(procs.drop_last()) + (if procs.last().state != ProcessState::Killed { ps_line(procs.last()) } else { Seq::empty() })
    }
}

/// The header of `ps`.
pub open spec fn ps_header() -> Seq<char> {
    "PID  USER    PRIORITY  STATE     CPU_TICKS  NAME\n"@
}

/// Appends `s` left-aligned in a column of width `w`, then a space.
fn push_cell(out: &mut Vec<char>, s: &[char], w: usize)
    ensures
        final(out)@ == old(out)@ + pad_right(s@, w as int) + " "@,
{
    push_padded_right(out, s, w);
    push_str(out, " ");
}

/// The `ps` row of `p`.
fn ps_row(p: &Process) -> (r: Vec<char>)
    ensures
        r@ == ps_line(*p),
{
    let mut out: Vec<char> = Vec::new();
    let pid = decimal_chars(p.pid as u64);
    push_cell(&mut out, pid.as_slice(), 4);
    let mut label: Vec<char> = Vec::new();
    if p.owner_uid == 0 { push_str(&mut label, "root"); } else { push_str(&mut label, "student"); }
    push_cell(&mut out, label.as_slice(), 7);
    let prio = priority_chars(p.priority);
    push_cell(&mut out, prio.as_slice(), 9);
    let st = state_chars(p.state);
    push_cell(&mut out, st.as_slice(), 9);
    let ticks = decimal_chars(p.cpu_ticks);
    push_cell(&mut out, ticks.as_slice(), 10);
    push_str(&mut out, p.name.as_str());
    push_str(&mut out, "\n");
    assert(out@ =~= ps_line(*p));
    out
}

/// The `top` row of `p`.
fn top_row(p: &Process) -> (r: Vec<char>)
    ensures
        r@ == top_line(*p),
{
    let mut out: Vec<char> = Vec::new();
    let pid = decimal_chars(p.pid as u64);
    push_cell(&mut out, pid.as_slice(), 5);
    let st = state_chars(p.state);
    push_cell(&mut out, st.as_slice(), 9);
    let ticks = decimal_chars(p.cpu_ticks);
    push_cell(&mut out, ticks.as_slice(), 6);
    push_str(&mut out, p.name.as_str());
    push_str(&mut out, "\n");
    assert(out@ =~= top_line(*p));
    out
}

/// `ps`: every process that is not killed, with owner, priority, state and ticks.
pub fn cmd_ps(tt: &TaskTable) -> (r: String)
    ensures
        r@ == ps_header() + ps_lines(tt.procs@),
{
    let mut out: Vec<char> = Vec::new();
    push_str(&mut out, "PID  USER    PRIORITY  STATE     CPU_TICKS  NAME\n");
    let ghost head = out@;
    let mut i: usize = 0;
    while i < tt.procs.len()
        invariant
            i <= tt.procs@.len(),
            out@ == head + ps_lines(tt.procs@.subrange(0, i as int)),
        decreases tt.procs@.len() - i,
    {
        let ghost before = out@;
        assert(tt.procs@.subrange(0, i + 1).drop_last() =~= tt.procs@.subrange(0, i as int));
        assert(tt.procs@.subrange(0, i + 1).last() == tt.procs@[i as int]);
        if tt.procs[i].state != ProcessState::Killed {
            let row = ps_row(&tt.procs[i]);
            push_chars(&mut out, row.as_slice());
        } else {
            assert(before + Seq::<char>::empty() =~= before);
        }
        i = i + 1;
    }
    assert(tt.procs@.subrange(0, tt.procs@.len() as int) =~= tt.procs@);
    chars_to_string(out.as_slice())
}

/// `sorted` (positions into `procs`, by ticks from most to fewest) with position `i`
/// placed after every process with at least as many ticks.
pub open spec fn insert_by_ticks(procs: Seq<Process>, sorted: Seq<int>, i: int) -> Seq<int>
    decreases sorted.len(),
{
    if sorted.len() == 0 {
        seq![i]
    } else if procs[sorted.last()].cpu_ticks >= procs[i].cpu_ticks {
        sorted.push(i)
    } else {
        insert_by_ticks(procs, sorted.drop_last(), i).push(sorted.last())
    }
}

/// The positions of the first `n` processes ordered by ticks from most to fewest, ties kept
/// in table order.
pub open spec fn by_ticks(procs: Seq<Process>, n: int) -> Seq<int>
    decreases n,
{
    if n <= 0 { Seq::empty() } else { insert_by_ticks(procs, by_ticks(procs, n - 1), n - 1) }
}

/// One row of `top`.
pub open spec fn top_line(p: Process) -> Seq<char> {
    pad_right(decimal(p.pid as nat), 5) + " "@ + pad_right(state_name(p.state), 9) + " "@
        + pad_right(decimal(p.cpu_ticks as nat), 6) + " "@ + p.name@ + "\n"@
}

/// The rows of `top` for the listed positions whose processes are not killed.
pub open spec fn top_lines(procs: Seq<Process>, order: Seq<int>) -> Seq<char>
    decreases order.len(),
{
    if order.len() == 0 {
        Seq::empty()
    } else {
        let p = procs[order.last()];
        top_lines(procs, order.drop_last()) + (if p.state != ProcessState::Killed { top_line(p) } else { Seq::empty() })
    }
}

/// What `top` prints: the five busiest processes, skipping killed ones among them.
pub open spec fn top_output(procs: Seq<Process>) -> Seq<char> {
    let order = by_ticks(procs, procs.len() as int);
    "NovaOS Top Monitor:\nActive processes list (sorted by ticks):\nPID   STATE     TICKS  COMMAND\n"@
        + top_lines(procs, order.take(if order.len() < 5 { order.len() as int } else { 5 }))
}

/// The order `top` sorts by has one entry per process, each a position in the table.
pub proof fn lemma_by_ticks_positions(procs: Seq<Process>, n: int)
    requires
        0 <= n <= procs.len(),
    ensures
        by_ticks(procs, n).len() == n,
        forall|k: int| 0 <= k < n ==> 0 <= #[trigger] by_ticks(procs, n)[k] < n,
    decreases n,
{
    if n > 0 {
        lemma_by_ticks_positions(procs, n - 1);
        lemma_insert_positions(procs, by_ticks(procs, n - 1), n - 1);
    }
}

/// Inserting `i` adds one position and keeps every position below `i + 1`.
proof fn lemma_insert_positions(procs: Seq<Process>, sorted: Seq<int>, i: int)
    requires
        0 <= i < procs.len(),
        forall|k: int| 0 <= k < sorted.len() ==> 0 <= #[trigger] sorted[k] < i,
    ensures
        insert_by_ticks(procs, sorted, i).len() == sorted.len() + 1,
        forall|k: int| 0 <= k < sorted.len() + 1 ==> 0 <= #[trigger] insert_by_ticks(procs, sorted, i)[k] <= i,
    decreases sorted.len(),
{
    if sorted.len() > 0 && procs[sorted.last()].cpu_ticks < procs[i].cpu_ticks {
        lemma_insert_positions(procs, sorted.drop_last(), i);
        let r = insert_by_ticks(procs, sorted.drop_last(), i);
        assert forall|k: int| 0 <= k < sorted.len() + 1 implies 0 <= #[trigger] r.push(sorted.last())[k] <= i by {
            if k < r.len() { assert(r.push(sorted.last())[k] == r[k]); }
        }
    }
}

/// The positions list processes with ticks from most to fewest.
pub open spec fn ticks_descending(procs: Seq<Process>, order: Seq<int>) -> bool {
    forall|a: int, b: int| 0 <= a < b < order.len() ==> procs[order[a]].cpu_ticks >= procs[order[b]].cpu_ticks
}

/// Inserting into a descending list keeps it descending, and keeps every entry at or above
/// any bound that the list and the new process respect.
proof fn lemma_insert_descending(procs: Seq<Process>, s: Seq<int>, i: int, t: u64)
    requires
        ticks_descending(procs, s),
        forall|k: int| 0 <= k < s.len() ==> procs[#[trigger] s[k]].cpu_ticks >= t,
        procs[i].cpu_ticks >= t,
    ensures
        ticks_descending(procs, insert_by_ticks(procs, s, i)),
        forall|k: int| 0 <= k < insert_by_ticks(procs, s, i).len() ==> procs[#[trigger] insert_by_ticks(procs, s, i)[k]].cpu_ticks >= t,
    decreases s.len(),
{
    if s.len() == 0 {
    } else if procs[s.last()].cpu_ticks >= procs[i].cpu_ticks {
        let r = s.push(i);
        assert forall|a: int, b: int| 0 <= a < b < r.len() implies procs[r[a]].cpu_ticks >= procs[r[b]].cpu_ticks by {
            if b == s.len() {
                if a < s.len() - 1 { assert(procs[s[a]].cpu_ticks >= procs[s[s.len() - 1]].cpu_ticks); }
            }
        }
        assert forall|k: int| 0 <= k < r.len() implies procs[#[trigger] r[k]].cpu_ticks >= t by {
            if k < s.len() { assert(r[k] == s[k]); }
        }
    } else {
        let s2 = s.drop_last();
        let last = s.last();
        let tl = procs[last].cpu_ticks;
        assert forall|a: int, b: int| 0 <= a < b < s2.len() implies procs[s2[a]].cpu_ticks >= procs[s2[b]].cpu_ticks by {
            assert(s2[a] == s[a] && s2[b] == s[b]);
        }
        assert forall|k: int| 0 <= k < s2.len() implies procs[#[trigger] s2[k]].cpu_ticks >= tl by {
            assert(s2[k] == s[k]);
            assert(procs[s[k]].cpu_ticks >= procs[s[s.len() - 1]].cpu_ticks);
        }
        lemma_insert_descending(procs, s2, i, tl);
        let r2 = insert_by_ticks(procs, s2, i);
        let r = r2.push(last);
        assert forall|a: int, b: int| 0 <= a < b < r.len() implies procs[r[a]].cpu_ticks >= procs[r[b]].cpu_ticks by {
            if b == r2.len() {
                assert(procs[r2[a]].cpu_ticks >= tl);
            } else {
                assert(r[a] == r2[a] && r[b] == r2[b]);
            }
        }
        assert forall|k: int| 0 <= k < r.len() implies procs[#[trigger] r[k]].cpu_ticks >= t by {
            if k < r2.len() {
                assert(r[k] == r2[k]);
                assert(procs[r2[k]].cpu_ticks >= tl);
            }
            assert(procs[s[s.len() - 1]].cpu_ticks >= t);
        }
    }
}

/// `top` lists the processes from most ticks to fewest: the order it sorts by is descending.
pub proof fn lemma_top_order_descending(procs: Seq<Process>, n: int)
    ensures
        ticks_descending(procs, by_ticks(procs, n)),
    decreases n,
{
    if n > 0 {
        lemma_top_order_descending(procs, n - 1);
        let s = by_ticks(procs, n - 1);
        assert forall|k: int| 0 <= k < s.len() implies procs[#[trigger] s[k]].cpu_ticks >= 0u64 by {}
        lemma_insert_descending(procs, s, n - 1, 0);
    }
}

/// `top`: the five processes with the most ticks.
pub fn cmd_top(tt: &TaskTable) -> (r: String)
    ensures
        r@ == top_output(tt.procs@),
{
    let list = get_process_list(tt);
    let ghost procs = tt.procs@;
    let mut order: Vec<usize> = Vec::new();
    let mut i: usize = 0;
    while i < list.len()
        invariant
            procs == tt.procs@,
            list@.len() == procs.len(),
            forall|k: int| 0 <= k < list@.len() ==> crate::kernel::task::same_process(#[trigger] list@[k], procs[k]),
            i <= list@.len(),
            order@.len() == i,
            forall|k: int| 0 <= k < i ==> #[trigger] order@[k] < i,
            order@.map_values(|x: usize| x as int) == by_ticks(procs, i as int),
        decreases list@.len() - i,
    {
        let ghost sorted = order@.map_values(|x: usize| x as int);
        assert forall|k: int| 0 <= k < sorted.len() implies #[trigger] sorted[k] < i as int by {
            assert(sorted[k] == order@[k] as int);
        }
        let ticks = list[i].cpu_ticks;
        assert(list@[i as int].cpu_ticks == procs[i as int].cpu_ticks);
        let mut j: usize = order.len();
        assert(sorted.subrange(0, sorted.len() as int) =~= sorted);
        assert(insert_by_ticks(procs, sorted, i as int) + sorted.subrange(sorted.len() as int, sorted.len() as int)
            =~= insert_by_ticks(procs, sorted, i as int));
        while j > 0 && list[order[j - 1]].cpu_ticks < ticks
            invariant
                procs == tt.procs@,
                list@.len() == procs.len(),
                forall|k: int| 0 <= k < list@.len() ==> crate::kernel::task::same_process(#[trigger] list@[k], procs[k]),
                i < list@.len(),
                ticks == procs[i as int].cpu_ticks,
                order@.len() == i,
                forall|k: int| 0 <= k < i ==> #[trigger] order@[k] < i,
                sorted == order@.map_values(|x: usize| x as int),
                forall|k: int| 0 <= k < sorted.len() ==> #[trigger] sorted[k] < i as int,
                j <= order@.len(),
                insert_by_ticks(procs, sorted, i as int)
                    == insert_by_ticks(procs, sorted.subrange(0, j as int), i as int) + sorted.subrange(j as int, sorted.len() as int),
            decreases j,
        {
            let ghost s0 = sorted.subrange(0, j as int);
            assert(s0.drop_last() =~= sorted.subrange(0, j - 1));
            assert(s0.last() == order@[j - 1] as int);
            assert(list@[order@[j - 1] as int].cpu_ticks == procs[order@[j - 1] as int].cpu_ticks);
            assert(sorted.subrange(j - 1, sorted.len() as int) =~= seq![s0.last()] + sorted.subrange(j as int, sorted.len() as int));
            assert(insert_by_ticks(procs, s0, i as int) == insert_by_ticks(procs, sorted.subrange(0, j - 1), i as int).push(s0.last()));
            assert(insert_by_ticks(procs, sorted.subrange(0, j - 1), i as int).push(s0.last()) + sorted.subrange(j as int, sorted.len() as int)
                =~= insert_by_ticks(procs, sorted.subrange(0, j - 1), i as int) + sorted.subrange(j - 1, sorted.len() as int));
            j = j - 1;
        }
        proof {
            let s0 = sorted.subrange(0, j as int);
            if j > 0 {
                assert(list@[order@[j - 1] as int].cpu_ticks == procs[order@[j - 1] as int].cpu_ticks);
                assert(s0.last() == order@[j - 1] as int);
            }
            assert(insert_by_ticks(procs, s0, i as int) =~= s0.push(i as int));
        }
        order.insert(j, i);
        proof {
            assert(order@.map_values(|x: usize| x as int) =~=
                sorted.subrange(0, j as int).push(i as int) + sorted.subrange(j as int, sorted.len() as int));
            assert(by_ticks(procs, i + 1) == insert_by_ticks(procs, by_ticks(procs, i as int), i as int));
            let m = order@.map_values(|x: usize| x as int);
            assert forall|k: int| 0 <= k < i + 1 implies #[trigger] order@[k] < i + 1 by {
                assert(m[k] == order@[k] as int);
                if k < j { assert(m[k] == sorted[k]); } else if k > j { assert(m[k] == sorted[k - 1]); }
            }
        }
        i = i + 1;
    }
    let ghost all = by_ticks(procs, procs.len() as int);
    let mut out: Vec<char> = Vec::new();
    push_str(&mut out, "NovaOS Top Monitor:\nActive processes list (sorted by ticks):\nPID   STATE     TICKS  COMMAND\n");
    let ghost head = out@;
    let limit: usize = if order.len() < 5 { order.len() } else { 5 };
    let ghost shown = all.take(limit as int);
    let mut k: usize = 0;
    while k < limit
        invariant
            procs == tt.procs@,
            list@.len() == procs.len(),
            forall|m: int| 0 <= m < list@.len() ==> crate::kernel::task::same_process(#[trigger] list@[m], procs[m]),
            order@.len() == procs.len(),
            forall|m: int| 0 <= m < order@.len() ==> #[trigger] order@[m] < procs.len(),
            order@.map_values(|x: usize| x as int) == all,
            limit <= order@.len(),
            shown == all.take(limit as int),
            k <= limit,
            out@ == head + top_lines(procs, shown.take(k as int)),
        decreases limit - k,
    {
        let ghost before = out@;
        let idx = order[k];
        assert(shown[k as int] == idx as int);
        assert(shown.take(k + 1).drop_last() =~= shown.take(k as int));
        let p = &list[idx];
        assert(crate::kernel::task::same_process(list@[idx as int], procs[idx as int]));
        if p.state != ProcessState::Killed {
            let row = top_row(p);
            assert(row@ == top_line(procs[idx as int]));
            push_chars(&mut out, row.as_slice());
        } else {
            assert(before + Seq::<char>::empty() =~= before);
        }
        k = k + 1;
    }
    assert(shown.take(limit as int) =~= shown);
    chars_to_string(out.as_slice())
}

} // verus!
