//! The order in which entries are shown.

use crate::process::{ProcessInfo, ProcessView};
use crate::taskstats::{sat_sub, TaskStats};
use crate::text::chars_of;
use crate::ui::{SortColumn, UIState};
use vstd::prelude::*;

verus! {

/// How one value stands to another.
#[derive(Debug, Clone, Copy, PartialEq, Eq, Structural)]
pub enum Order {
    Before,
    Same,
    After,
}

/// The order of two numbers.
pub open spec fn int_order(a: int, b: int) -> Order {
    if a < b {
        Order::Before
    } else if a > b {
        Order::After
    } else {
        Order::Same
    }
}

/// The order of two texts from position `i` on: by the first character
/// in which they differ, a shorter text before its extensions.
pub open spec fn chars_order_from(a: Seq<char>, b: Seq<char>, i: int) -> Order
    decreases a.len() - i,
{
    if i < 0 {
        Order::Same
    } else if i >= a.len() {
        if i >= b.len() {
            Order::Same
        } else {
            Order::Before
        }
    } else if i >= b.len() {
        Order::After
    } else if (a[i] as u32) < (b[i] as u32) {
        Order::Before
    } else if (a[i] as u32) > (b[i] as u32) {
        Order::After
    } else {
        chars_order_from(a, b, i + 1)
    }
}

/// The order of two texts.
pub open spec fn chars_order(a: Seq<char>, b: Seq<char>) -> Order {
    chars_order_from(a, b, 0)
}

/// The first order, or the second where the first finds no difference.
pub open spec fn settled_by(first: Order, second: Order) -> Order {
    if first == Order::Same {
        second
    } else {
        first
    }
}

/// The opposite order.
pub open spec fn reversed(o: Order) -> Order {
    match o {
        Order::Before => Order::After,
        Order::Same => Order::Same,
        Order::After => Order::Before,
    }
}

/// The counters that are shown of an entry.
pub open spec fn shown_stats(p: ProcessView, accumulated: bool) -> TaskStats {
    if accumulated {
        p.stats_accum
    } else {
        p.stats_delta
    }
}

/// Bytes written and not cancelled.
pub open spec fn written(s: TaskStats) -> int {
    sat_sub(s.write_bytes as int, s.cancelled_write_bytes as int)
}

/// A text that may not be known yet, with what is shown in its place.
pub open spec fn shown(text: Option<Seq<char>>, missing: Seq<char>) -> Seq<char> {
    match text {
        Some(t) => t,
        None => missing,
    }
}

/// The order of two entries by the sort column: ids and texts upwards,
/// counters downwards.
pub open spec fn column_order(a: ProcessView, b: ProcessView, state: UIState) -> Order {
    let sa = shown_stats(a, state.accumulated);
    let sb = shown_stats(b, state.accumulated);
    match state.sort_column {
        SortColumn::Pid => int_order(a.tid as int, b.tid as int),
        SortColumn::Prio => chars_order(shown(a.prio, "be/4"@), shown(b.prio, "be/4"@)),
        SortColumn::User => chars_order(shown(a.user, "?"@), shown(b.user, "?"@)),
        SortColumn::Read => int_order(sb.read_bytes as int, sa.read_bytes as int),
        SortColumn::Write => int_order(written(sb), written(sa)),
        SortColumn::Swapin => int_order(sb.swapin_delay_total as int, sa.swapin_delay_total as int),
        SortColumn::Io => int_order(sb.blkio_delay_total as int, sa.blkio_delay_total as int),
        SortColumn::Command => chars_order(
            shown(a.cmdline, "{no such process}"@),
            shown(b.cmdline, "{no such process}"@),
        ),
    }
}

/// The order in which two entries are shown: by the sort column, turned
/// round unless `sort_reverse` is set, then by thread group, then by task.
pub open spec fn process_order(a: ProcessView, b: ProcessView, state: UIState) -> Order {
    let by_column = column_order(a, b, state);
    let first = if state.sort_reverse {
        by_column
    } else {
        reversed(by_column)
    };
    settled_by(
        settled_by(first, int_order(a.pid as int, b.pid as int)),
        int_order(a.tid as int, b.tid as int),
    )
}

fn order_i32(a: i32, b: i32) -> (r: Order)
    ensures
        r == int_order(a as int, b as int),
{
    if a < b {
        Order::Before
    } else if a > b {
        Order::After
    } else {
        Order::Same
    }
}

fn order_u64(a: u64, b: u64) -> (r: Order)
    ensures
        r == int_order(a as int, b as int),
{
    if a < b {
        Order::Before
    } else if a > b {
        Order::After
    } else {
        Order::Same
    }
}

/// The order of two strings, as `str` orders them.
pub fn order_str(a: &str, b: &str) -> (r: Order)
    ensures
        r == chars_order(a@, b@),
{
    let x = chars_of(a);
    let y = chars_of(b);
    let mut i: usize = 0;
    loop
        invariant
            x@ == a@,
            y@ == b@,
            i <= x@.len(),
            i <= y@.len(),
            chars_order(a@, b@) == chars_order_from(a@, b@, i as int),
        decreases x@.len() - i,
    {
        if i >= x.len() {
            return if i >= y.len() {
                Order::Same
            } else {
                Order::Before
            };
        }
        if i >= y.len() {
            return Order::After;
        }
        let p: u32 = x[i] as u32;
        let q: u32 = y[i] as u32;
        if p < q {
            return Order::Before;
        }
        if p > q {
            return Order::After;
        }
        i += 1;
    }
}

/// The order in which two entries are shown.
pub fn compare_processes(a: &ProcessInfo, b: &ProcessInfo, state: &UIState) -> (r: Order)
    ensures
        r == process_order(a@, b@, *state),
{
    let sa = if state.accumulated {
        a.stats_accum
    } else {
        a.stats_delta
    };
    let sb = if state.accumulated {
        b.stats_accum
    } else {
        b.stats_delta
    };
    let by_column = match state.sort_column {
        SortColumn::Pid => order_i32(a.tid, b.tid),
        SortColumn::Prio => order_str(a.get_prio(), b.get_prio()),
        SortColumn::User => order_str(a.get_user(), b.get_user()),
        SortColumn::Read => order_u64(sb.read_bytes, sa.read_bytes),
        SortColumn::Write => order_u64(
            sb.write_bytes.saturating_sub(sb.cancelled_write_bytes),
            sa.write_bytes.saturating_sub(sa.cancelled_write_bytes),
        ),
        SortColumn::Swapin => order_u64(sb.swapin_delay_total, sa.swapin_delay_total),
        SortColumn::Io => order_u64(sb.blkio_delay_total, sa.blkio_delay_total),
        SortColumn::Command => order_str(a.get_cmdline(), b.get_cmdline()),
    };
    let first = if state.sort_reverse {
        by_column
    } else {
        match by_column {
            Order::Before => Order::After,
            Order::Same => Order::Same,
            Order::After => Order::Before,
        }
    };
    if first != Order::Same {
        return first;
    }
    let by_pid = order_i32(a.pid, b.pid);
    if by_pid != Order::Same {
        return by_pid;
    }
    order_i32(a.tid, b.tid)
}

/// No entry stands after its successor, from `from` up to `upto`.
pub open spec fn in_order(v: Seq<&ProcessInfo>, state: UIState, from: int, upto: int) -> bool {
    forall|k: int|
        from <= k && k + 1 < upto ==> process_order(v[k]@, #[trigger] v[k + 1]@, state)
            != Order::After
}

/// Puts the entries into the order in which they are shown: the same
/// entries, with none standing after its successor.
pub fn sort_processes(processes: &mut Vec<&ProcessInfo>, state: &UIState)
    ensures
        final(processes)@.to_multiset() == old(processes)@.to_multiset(),
        final(processes)@.len() == old(processes)@.len(),
        in_order(final(processes)@, *state, 0, final(processes)@.len() as int),
{
    let n = processes.len();
    let mut i: usize = 1;
    while i < n
        invariant
            n == processes@.len(),
            processes@.to_multiset() == old(processes)@.to_multiset(),
            1 <= i,
            in_order(processes@, *state, 0, i as int),
        decreases n - i,
    {
        let mut j: usize = i;
        while j > 0 && compare_processes(processes[j], processes[j - 1], state) == Order::Before
            invariant
                n == processes@.len(),
                processes@.to_multiset() == old(processes)@.to_multiset(),
                j <= i < n,
                in_order(processes@, *state, 0, j as int),
                in_order(processes@, *state, j as int, i + 1),
                0 < j < i ==> process_order(
                    processes@[j - 1]@,
                    processes@[j + 1]@,
                    *state,
                ) != Order::After,
            decreases j,
        {
            let ghost before = processes@;
            let lower = processes[j - 1];
            let upper = processes[j];
            processes.set(j - 1, upper);
            processes.set(j, lower);
            proof {
                broadcast use vstd::seq_lib::to_multiset_update;
                broadcast use vstd::multiset::group_multiset_axioms;

                let mid = before.update(j - 1, upper);
                assert(processes@ == mid.update(j as int, lower));
                assert(mid.to_multiset() == before.to_multiset().insert(upper).remove(lower));
                assert(processes@.to_multiset() == mid.to_multiset().insert(lower).remove(upper));
                assert(before.to_multiset().count(lower) > 0) by {
                    vstd::seq_lib::to_multiset_contains(before, lower);
                    assert(before[j - 1] == lower);
                }
                assert forall|v: &ProcessInfo|
                    processes@.to_multiset().count(v) == before.to_multiset().count(v) by {
                    let m0 = before.to_multiset();
                    let m1 = m0.insert(upper);
                    let m2 = m1.remove(lower);
                    let m3 = m2.insert(lower);
                    assert(m1.count(v) == m0.count(v) + if v == upper { 1int } else { 0int });
                    assert(m2.count(v) == m1.count(v) - if v == lower { 1int } else { 0int });
                    assert(m3.count(v) == m2.count(v) + if v == lower { 1int } else { 0int });
                }
                assert(processes@.to_multiset() =~= before.to_multiset());
                assert forall|k: int| 0 <= k && k + 1 < j - 1 implies process_order(
                    processes@[k]@,
                    #[trigger] processes@[k + 1]@,
                    *state,
                ) != Order::After by {
                    assert(processes@[k + 1] == before[k + 1]);
                    assert(processes@[k] == before[k]);
                }
                assert forall|k: int| j - 1 <= k && k + 1 < i + 1 implies process_order(
                    processes@[k]@,
                    #[trigger] processes@[k + 1]@,
                    *state,
                ) != Order::After by {
                    if k == j - 1 {
                    } else if k == j {
                        assert(processes@[k + 1] == before[j + 1]);
                    } else {
                        assert(processes@[k + 1] == before[k + 1]);
                        assert(processes@[k] == before[k]);
                    }
                }
                if j >= 2 {
                    assert(before[j - 1] == lower);
                    assert(process_order(before[j - 2]@, before[j - 2 + 1]@, *state)
                        != Order::After);
                }
            }
            j -= 1;
        }
        proof {
            assert forall|k: int| 0 <= k && k + 1 < i + 1 implies process_order(
                processes@[k]@,
                #[trigger] processes@[k + 1]@,
                *state,
            ) != Order::After by {
                if k + 1 < j {
                } else if k >= j {
                } else {
                    // k + 1 == j: the element at j is not before its predecessor
                    lemma_not_before(processes@[j as int]@, processes@[j - 1]@, *state);
                }
            }
        }
        i += 1;
    }
}

/// Where the order of two texts is turned round, so is the outcome.
pub proof fn lemma_chars_order_flip(a: Seq<char>, b: Seq<char>, i: int)
    requires
        0 <= i,
    ensures
        chars_order_from(b, a, i) == reversed(chars_order_from(a, b, i)),
    decreases a.len() - i,
{
    if i < a.len() && i < b.len() && a[i] as u32 == b[i] as u32 {
        lemma_chars_order_flip(a, b, i + 1);
    }
}

/// The order of two entries taken the other way round is the opposite.
pub proof fn lemma_process_order_flip(a: ProcessView, b: ProcessView, state: UIState)
    ensures
        process_order(b, a, state) == reversed(process_order(a, b, state)),
{
    lemma_chars_order_flip(shown(a.prio, "be/4"@), shown(b.prio, "be/4"@), 0);
    lemma_chars_order_flip(shown(a.user, "?"@), shown(b.user, "?"@), 0);
    lemma_chars_order_flip(
        shown(a.cmdline, "{no such process}"@),
        shown(b.cmdline, "{no such process}"@),
        0,
    );
}

/// An entry that does not stand before another has that other not after it.
pub proof fn lemma_not_before(a: ProcessView, b: ProcessView, state: UIState)
    requires
        process_order(a, b, state) != Order::Before,
    ensures
        process_order(b, a, state) != Order::After,
{
    lemma_process_order_flip(a, b, state);
}

/// Whether an entry is shown: all are, unless only those with I/O are
/// asked for.
pub open spec fn is_shown(p: ProcessView, state: UIState) -> bool {
    !state.only_active || p.spec_did_some_io(state.accumulated)
}

/// The entries that are shown, in the order in which they are kept.
pub open spec fn chosen<'a>(procs: Seq<&'a ProcessInfo>, state: UIState) -> Seq<&'a ProcessInfo>
    decreases procs.len(),
{
    if procs.len() == 0 {
        procs
    } else if is_shown(procs.last()@, state) {
        chosen(procs.drop_last(), state).push(procs.last())
    } else {
        chosen(procs.drop_last(), state)
    }
}

/// The entries as references to them.
pub open spec fn references<'a>(procs: Seq<ProcessInfo>) -> Seq<&'a ProcessInfo> {
    Seq::new(procs.len(), |i: int| &procs[i])
}

/// The entries to show, in display order: those that are shown, with
/// none standing after its successor.
pub fn visible_processes<'a>(processes: &'a Vec<ProcessInfo>, state: &UIState) -> (r: Vec<
    &'a ProcessInfo,
>)
    ensures
        r@.to_multiset() == chosen(references(processes@), *state).to_multiset(),
        in_order(r@, *state, 0, r@.len() as int),
{
    let mut kept: Vec<&'a ProcessInfo> = Vec::new();
    let mut i: usize = 0;
    assert(references(processes@).subrange(0, 0) =~= Seq::<&ProcessInfo>::empty());
    while i < processes.len()
        invariant
            i <= processes@.len(),
            kept@ == chosen(references(processes@).subrange(0, i as int), *state),
        decreases processes@.len() - i,
    {
        proof {
            let next = references(processes@).subrange(0, i + 1);
            assert(next.drop_last() =~= references(processes@).subrange(0, i as int));
            assert(next.last() == &processes@[i as int]);
        }
        let p = &processes[i];
        if !state.only_active || p.did_some_io(state.accumulated) {
            kept.push(p);
        }
        i += 1;
    }
    assert(references(processes@).subrange(0, processes@.len() as int) =~= references(
        processes@,
    ));
    sort_processes(&mut kept, state);
    kept
}

} // verus!
