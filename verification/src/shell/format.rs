//! Text layout used by the shell's listings: padding to a column width, joining words, and
//! the names of process states and priorities as the listings print them.
use vstd::prelude::*;
use crate::text::{push_str, push_chars, push_decimal};
use crate::kernel::task::{ProcessState, ProcessPriority};

verus! {

/// `n` spaces.
pub open spec fn spaces(n: int) -> Seq<char> {
    Seq::new(if n > 0 { n as nat } else { 0 }, |i: int| ' ')
}

/// `s` followed by spaces up to width `w` (left-aligned in a column of width `w`).
pub open spec fn pad_right(s: Seq<char>, w: int) -> Seq<char> {
    s + spaces(w - s.len())
}

/// Spaces up to width `w` followed by `s` (right-aligned in a column of width `w`).
pub open spec fn pad_left(s: Seq<char>, w: int) -> Seq<char> {
    spaces(w - s.len()) + s
}

/// The words of `v` joined by `sep`.
pub open spec fn join_spec(v: Seq<Seq<char>>, sep: Seq<char>) -> Seq<char>
    decreases v.len(),
{
    if v.len() == 0 {
        Seq::empty()
    } else if v.len() == 1 {
        v[0]
    } else {
        join_spec(v.drop_last(), sep) + sep + v.last()
    }
}

/// The name a process state prints as.
pub open spec fn state_name(s: ProcessState) -> Seq<char> {
    match s {
        ProcessState::Running => "Running"@,
        ProcessState::Ready => "Ready"@,
        ProcessState::Blocked => "Blocked"@,
        ProcessState::Killed => "Killed"@,
    }
}

/// The name a priority prints as.
pub open spec fn priority_name(p: ProcessPriority) -> Seq<char> {
    match p {
        ProcessPriority::RealTime => "RealTime"@,
        ProcessPriority::High => "High"@,
        ProcessPriority::Normal => "Normal"@,
        ProcessPriority::Low => "Low"@,
    }
}

/// Appends `n` spaces.
pub fn push_spaces(out: &mut Vec<char>, n: usize)
    ensures
        final(out)@ == old(out)@ + spaces(n as int),
{
    let mut i: usize = 0;
    while i < n
        invariant
            i <= n,
            out@ == old(out)@ + spaces(i as int),
        decreases n - i,
    {
        out.push(' ');
        i = i + 1;
        assert(out@ =~= old(out)@ + spaces(i as int));
    }
}

/// Appends `s` left-aligned in a column of width `w`.
pub fn push_padded_right(out: &mut Vec<char>, s: &[char], w: usize)
    ensures
        final(out)@ == old(out)@ + pad_right(s@, w as int),
{
    push_chars(out, s);
    if s.len() < w {
        push_spaces(out, w - s.len());
    } else {
        push_spaces(out, 0);
        assert(spaces(w - s@.len()) =~= spaces(0));
    }
    assert(old(out)@ + s@ + spaces(w - s@.len()) =~= old(out)@ + pad_right(s@, w as int));
}

/// Appends `s` right-aligned in a column of width `w`.
pub fn push_padded_left(out: &mut Vec<char>, s: &[char], w: usize)
    ensures
        final(out)@ == old(out)@ + pad_left(s@, w as int),
{
    if s.len() < w {
        push_spaces(out, w - s.len());
    } else {
        push_spaces(out, 0);
        assert(spaces(w - s@.len()) =~= spaces(0));
    }
    push_chars(out, s);
    assert(old(out)@ + spaces(w - s@.len()) + s@ =~= old(out)@ + pad_left(s@, w as int));
}

/// The decimal digits of `n`.
pub fn decimal_chars(n: u64) -> (r: Vec<char>)
    ensures
        r@ == crate::text::decimal(n as nat),
{
    let mut r: Vec<char> = Vec::new();
    push_decimal(&mut r, n);
    assert(r@ =~= crate::text::decimal(n as nat));
    r
}

/// The name of a process state.
pub fn state_chars(s: ProcessState) -> (r: Vec<char>)
    ensures
        r@ == state_name(s),
{
    let mut r: Vec<char> = Vec::new();
    match s {
        ProcessState::Running => push_str(&mut r, "Running"),
        ProcessState::Ready => push_str(&mut r, "Ready"),
        ProcessState::Blocked => push_str(&mut r, "Blocked"),
        ProcessState::Killed => push_str(&mut r, "Killed"),
    }
    assert(r@ =~= state_name(s));
    r
}

/// The name of a priority.
pub fn priority_chars(p: ProcessPriority) -> (r: Vec<char>)
    ensures
        r@ == priority_name(p),
{
    let mut r: Vec<char> = Vec::new();
    match p {
        ProcessPriority::RealTime => push_str(&mut r, "RealTime"),
        ProcessPriority::High => push_str(&mut r, "High"),
        ProcessPriority::Normal => push_str(&mut r, "Normal"),
        ProcessPriority::Low => push_str(&mut r, "Low"),
    }
    assert(r@ =~= priority_name(p));
    r
}

} // verus!
