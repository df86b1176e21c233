//! The column that the table is sorted by, and the state of the display.

use vstd::prelude::*;

verus! {

#[derive(Debug, Clone, Copy, PartialEq, Eq, Structural)]
pub enum SortColumn {
    Pid,
    Prio,
    User,
    Read,
    Write,
    Swapin,
    Io,
    Command,
}

/// The columns that can be sorted by, in display order: the two delay
/// columns are there only with delay accounting.
pub open spec fn columns(has_delay_acct: bool) -> Seq<SortColumn> {
    if has_delay_acct {
        seq![
            SortColumn::Pid,
            SortColumn::Prio,
            SortColumn::User,
            SortColumn::Read,
            SortColumn::Write,
            SortColumn::Swapin,
            SortColumn::Io,
            SortColumn::Command,
        ]
    } else {
        seq![
            SortColumn::Pid,
            SortColumn::Prio,
            SortColumn::User,
            SortColumn::Read,
            SortColumn::Write,
            SortColumn::Command,
        ]
    }
}

/// The column to the right of `c`, the first after the last. From a
/// column that is not available, the first.
pub open spec fn next_column(c: SortColumn, has_delay_acct: bool) -> SortColumn {
    match c {
        SortColumn::Pid => SortColumn::Prio,
        SortColumn::Prio => SortColumn::User,
        SortColumn::User => SortColumn::Read,
        SortColumn::Read => SortColumn::Write,
        SortColumn::Write => if has_delay_acct {
            SortColumn::Swapin
        } else {
            SortColumn::Command
        },
        SortColumn::Swapin => if has_delay_acct {
            SortColumn::Io
        } else {
            SortColumn::Pid
        },
        SortColumn::Io => if has_delay_acct {
            SortColumn::Command
        } else {
            SortColumn::Pid
        },
        SortColumn::Command => SortColumn::Pid,
    }
}

/// The column to the left of `c`, the last before the first. From a
/// column that is not available, the first.
pub open spec fn previous_column(c: SortColumn, has_delay_acct: bool) -> SortColumn {
    match c {
        SortColumn::Pid => SortColumn::Command,
        SortColumn::Prio => SortColumn::Pid,
        SortColumn::User => SortColumn::Prio,
        SortColumn::Read => SortColumn::User,
        SortColumn::Write => SortColumn::Read,
        SortColumn::Swapin => if has_delay_acct {
            SortColumn::Write
        } else {
            SortColumn::Pid
        },
        SortColumn::Io => if has_delay_acct {
            SortColumn::Swapin
        } else {
            SortColumn::Pid
        },
        SortColumn::Command => if has_delay_acct {
            SortColumn::Io
        } else {
            SortColumn::Write
        },
    }
}

impl SortColumn {
    /// The column's name.
    pub open spec fn name(self) -> Seq<char> {
        match self {
            SortColumn::Pid => "tid"@,
            SortColumn::Prio => "prio"@,
            SortColumn::User => "user"@,
            SortColumn::Read => "read"@,
            SortColumn::Write => "write"@,
            SortColumn::Swapin => "swapin"@,
            SortColumn::Io => "io"@,
            SortColumn::Command => "command"@,
        }
    }

    /// Whether the column can be sorted by.
    pub open spec fn available(self, has_delay_acct: bool) -> bool {
        has_delay_acct || (self != SortColumn::Swapin && self != SortColumn::Io)
    }

    pub fn as_str(&self) -> (r: &'static str)
        ensures
            r@ == self.name(),
    {
        match self {
            SortColumn::Pid => "tid",
            SortColumn::Prio => "prio",
            SortColumn::User => "user",
            SortColumn::Read => "read",
            SortColumn::Write => "write",
            SortColumn::Swapin => "swapin",
            SortColumn::Io => "io",
            SortColumn::Command => "command",
        }
    }

    /// All columns that can be sorted by.
    pub fn available_columns(has_delay_acct: bool) -> (r: Vec<SortColumn>)
        ensures
            r@ == columns(has_delay_acct),
    {
        let mut v: Vec<SortColumn> = Vec::new();
        v.push(SortColumn::Pid);
        v.push(SortColumn::Prio);
        v.push(SortColumn::User);
        v.push(SortColumn::Read);
        v.push(SortColumn::Write);
        if has_delay_acct {
            v.push(SortColumn::Swapin);
            v.push(SortColumn::Io);
        }
        v.push(SortColumn::Command);
        assert(v@ =~= columns(has_delay_acct));
        v
    }

    /// The place of the column among `columns`, or their number.
    fn position(&self, columns: &Vec<SortColumn>) -> (r: usize)
        ensures
            r <= columns@.len(),
            r < columns@.len() ==> columns@[r as int] == *self,
            forall|k: int| 0 <= k < r ==> columns@[k] != *self,
    {
        let mut i: usize = 0;
        while i < columns.len() && !(columns[i] == *self)
            invariant
                i <= columns@.len(),
                forall|k: int| 0 <= k < i ==> columns@[k] != *self,
            decreases columns@.len() - i,
        {
            i += 1;
        }
        i
    }

    /// The next column to the right, around the end.
    pub fn cycle_forward(&self, has_delay_acct: bool) -> (r: SortColumn)
        ensures
            r == next_column(*self, has_delay_acct),
            r.available(has_delay_acct),
    {
        let columns = Self::available_columns(has_delay_acct);
        let idx = self.position(&columns);
        proof {
            lemma_columns(has_delay_acct);
            lemma_place(*self, has_delay_acct, idx as int);
        }
        if idx < columns.len() {
            let next_idx = if idx + 1 == columns.len() {
                0
            } else {
                idx + 1
            };
            columns[next_idx]
        } else {
            columns[0]
        }
    }

    /// The next column to the left, around the start.
    pub fn cycle_backward(&self, has_delay_acct: bool) -> (r: SortColumn)
        ensures
            r == previous_column(*self, has_delay_acct),
            r.available(has_delay_acct),
    {
        let columns = Self::available_columns(has_delay_acct);
        let idx = self.position(&columns);
        proof {
            lemma_columns(has_delay_acct);
            lemma_place(*self, has_delay_acct, idx as int);
        }
        if idx < columns.len() {
            let prev_idx = if idx == 0 {
                columns.len() - 1
            } else {
                idx - 1
            };
            columns[prev_idx]
        } else {
            columns[0]
        }
    }
}

/// The place of a column in display order; for one that is not
/// available, the number of columns.
pub open spec fn place(c: SortColumn, has_delay_acct: bool) -> int {
    match c {
        SortColumn::Pid => 0,
        SortColumn::Prio => 1,
        SortColumn::User => 2,
        SortColumn::Read => 3,
        SortColumn::Write => 4,
        SortColumn::Swapin => if has_delay_acct {
            5
        } else {
            6
        },
        SortColumn::Io => 6,
        SortColumn::Command => if has_delay_acct {
            7
        } else {
            5
        },
    }
}

proof fn lemma_columns(has_delay_acct: bool)
    ensures
        columns(has_delay_acct).len() == if has_delay_acct {
            8int
        } else {
            6int
        },
        forall|c: SortColumn|
            c.available(has_delay_acct) ==> 0 <= place(c, has_delay_acct) < columns(
                has_delay_acct,
            ).len() && columns(has_delay_acct)[#[trigger] place(c, has_delay_acct)] == c,
        forall|k: int|
            0 <= k < columns(has_delay_acct).len() ==> place(
                #[trigger] columns(has_delay_acct)[k],
                has_delay_acct,
            ) == k,
{
    let cols = columns(has_delay_acct);
    assert forall|k: int| 0 <= k < cols.len() implies place(#[trigger] cols[k], has_delay_acct)
        == k by {
        if k == 0 {
        } else if k == 1 {
        } else if k == 2 {
        } else if k == 3 {
        } else if k == 4 {
        } else if k == 5 {
        } else if k == 6 {
        } else {
        }
    }
}

proof fn lemma_place(c: SortColumn, has_delay_acct: bool, idx: int)
    requires
        0 <= idx <= columns(has_delay_acct).len(),
        idx < columns(has_delay_acct).len() ==> columns(has_delay_acct)[idx] == c,
        forall|k: int| 0 <= k < idx ==> columns(has_delay_acct)[k] != c,
    ensures
        idx == place(c, has_delay_acct),
        idx < columns(has_delay_acct).len() <==> c.available(has_delay_acct),
        c.available(has_delay_acct) ==> {
            let n = columns(has_delay_acct).len() as int;
            &&& columns(has_delay_acct)[if idx + 1 == n {
                0
            } else {
                idx + 1
            }] == next_column(c, has_delay_acct)
            &&& columns(has_delay_acct)[if idx == 0 {
                n - 1
            } else {
                idx - 1
            }] == previous_column(c, has_delay_acct)
        },
        !c.available(has_delay_acct) ==> columns(has_delay_acct)[0] == next_column(
            c,
            has_delay_acct,
        ) && columns(has_delay_acct)[0] == previous_column(c, has_delay_acct),
        next_column(c, has_delay_acct).available(has_delay_acct),
        previous_column(c, has_delay_acct).available(has_delay_acct),
{
    lemma_columns(has_delay_acct);
    let cols = columns(has_delay_acct);
    if c.available(has_delay_acct) {
        let p = place(c, has_delay_acct);
        assert(cols[p] == c);
        if idx > p {
            assert(cols[p] != c);
        }
        if idx < cols.len() {
            assert(place(cols[idx], has_delay_acct) == idx);
        }
    } else {
        if idx < cols.len() {
            assert(place(cols[idx], has_delay_acct) == idx);
        }
    }
    assert(cols[0] == SortColumn::Pid);
    assert(cols[1] == SortColumn::Prio);
    assert(cols[2] == SortColumn::User);
    assert(cols[3] == SortColumn::Read);
    assert(cols[4] == SortColumn::Write);
    assert(cols[5] == if has_delay_acct { SortColumn::Swapin } else { SortColumn::Command });
    if has_delay_acct {
        assert(cols[6] == SortColumn::Io);
        assert(cols[7] == SortColumn::Command);
    }
}

/// Stepping right and then left from an available column, or left and
/// then right, comes back to it.
pub proof fn lemma_cycle_round_trip(c: SortColumn, has_delay_acct: bool)
    requires
        c.available(has_delay_acct),
    ensures
        previous_column(next_column(c, has_delay_acct), has_delay_acct) == c,
        next_column(previous_column(c, has_delay_acct), has_delay_acct) == c,
{
}

/// What the display shows and how.
#[derive(Debug, Clone, Copy)]
pub struct UIState {
    pub only_active: bool,
    pub accumulated: bool,
    pub sort_column: SortColumn,
    pub sort_reverse: bool,
    pub paused: bool,
    pub show_processes: bool,
    pub scroll_offset: usize,
}

impl Default for UIState {
    fn default() -> (r: UIState)
        ensures
            r == (UIState {
                only_active: false,
                accumulated: false,
                sort_column: SortColumn::Pid,
                sort_reverse: true,
                paused: false,
                show_processes: false,
                scroll_offset: 0,
            }),
    {
        UIState {
            only_active: false,
            accumulated: false,
            sort_column: SortColumn::Pid,
            sort_reverse: true,
            paused: false,
            show_processes: false,
            scroll_offset: 0,
        }
    }
}

/// What the user asks for with a key or the mouse.
#[derive(Debug, Clone, Copy, PartialEq, Eq, Structural)]
pub enum UiCommand {
    Quit,
    ToggleOnlyActive,
    ToggleAccumulated,
    ToggleReverse,
    TogglePause,
    ToggleProcesses,
    SortLeft,
    SortRight,
    SortFirst,
    SortLast,
    /// Scroll up by so many rows.
    ScrollUp(usize),
    /// Scroll down by so many rows.
    ScrollDown(usize),
    ScrollTop,
    ScrollBottom,
}

/// What the program has to do after a command, besides drawing.
#[derive(Debug, Clone, Copy, PartialEq, Eq, Structural)]
pub enum UiEffect {
    Nothing,
    /// Leave the program.
    Quit,
    /// Start sampling anew, in the other of the two modes.
    RestartStream,
}

/// `a + b`, stopping at `usize::MAX`.
pub open spec fn capped_sum(a: usize, b: usize) -> usize {
    if a + b > usize::MAX {
        usize::MAX
    } else {
        (a + b) as usize
    }
}

/// `a - b`, stopping at zero.
pub open spec fn floored_difference(a: usize, b: usize) -> usize {
    if a >= b {
        (a - b) as usize
    } else {
        0
    }
}

impl UIState {
    /// The state after a command. Every command but scrolling, pausing and
    /// leaving goes back to the top of the table.
    pub open spec fn after(self, command: UiCommand, has_delay_acct: bool) -> UIState {
        match command {
            UiCommand::Quit => self,
            UiCommand::ToggleOnlyActive => UIState {
                only_active: !self.only_active,
                scroll_offset: 0,
                ..self
            },
            UiCommand::ToggleAccumulated => UIState {
                accumulated: !self.accumulated,
                scroll_offset: 0,
                ..self
            },
            UiCommand::ToggleReverse => UIState {
                sort_reverse: !self.sort_reverse,
                scroll_offset: 0,
                ..self
            },
            UiCommand::TogglePause => UIState { paused: !self.paused, ..self },
            UiCommand::ToggleProcesses => UIState {
                show_processes: !self.show_processes,
                scroll_offset: 0,
                ..self
            },
            UiCommand::SortLeft => UIState {
                sort_column: previous_column(self.sort_column, has_delay_acct),
                scroll_offset: 0,
                ..self
            },
            UiCommand::SortRight => UIState {
                sort_column: next_column(self.sort_column, has_delay_acct),
                scroll_offset: 0,
                ..self
            },
            UiCommand::SortFirst => UIState { sort_column: SortColumn::Pid, ..self },
            UiCommand::SortLast => UIState { sort_column: SortColumn::Command, ..self },
            UiCommand::ScrollUp(n) => UIState {
                scroll_offset: floored_difference(self.scroll_offset, n),
                ..self
            },
            UiCommand::ScrollDown(n) => UIState {
                scroll_offset: capped_sum(self.scroll_offset, n),
                ..self
            },
            UiCommand::ScrollTop => UIState { scroll_offset: 0, ..self },
            UiCommand::ScrollBottom => UIState { scroll_offset: usize::MAX, ..self },
        }
    }

    /// What a command asks of the program.
    pub open spec fn effect(command: UiCommand) -> UiEffect {
        match command {
            UiCommand::Quit => UiEffect::Quit,
            UiCommand::ToggleProcesses => UiEffect::RestartStream,
            _ => UiEffect::Nothing,
        }
    }

    /// Carries a command out on the state.
    pub fn apply(&mut self, command: UiCommand, has_delay_acct: bool) -> (r: UiEffect)
        ensures
            *final(self) == old(self).after(command, has_delay_acct),
            r == Self::effect(command),
    {
        match command {
            UiCommand::Quit => {
                return UiEffect::Quit;
            },
            UiCommand::ToggleOnlyActive => {
                self.only_active = !self.only_active;
                self.scroll_offset = 0;
            },
            UiCommand::ToggleAccumulated => {
                self.accumulated = !self.accumulated;
                self.scroll_offset = 0;
            },
            UiCommand::ToggleReverse => {
                self.sort_reverse = !self.sort_reverse;
                self.scroll_offset = 0;
            },
            UiCommand::TogglePause => {
                self.paused = !self.paused;
            },
            UiCommand::ToggleProcesses => {
                self.show_processes = !self.show_processes;
                self.scroll_offset = 0;
                return UiEffect::RestartStream;
            },
            UiCommand::SortLeft => {
                self.sort_column = self.sort_column.cycle_backward(has_delay_acct);
                self.scroll_offset = 0;
            },
            UiCommand::SortRight => {
                self.sort_column = self.sort_column.cycle_forward(has_delay_acct);
                self.scroll_offset = 0;
            },
            UiCommand::SortFirst => {
                self.sort_column = SortColumn::Pid;
            },
            UiCommand::SortLast => {
                self.sort_column = SortColumn::Command;
            },
            UiCommand::ScrollUp(n) => {
                self.scroll_offset = self.scroll_offset.saturating_sub(n);
            },
            UiCommand::ScrollDown(n) => {
                self.scroll_offset = self.scroll_offset.saturating_add(n);
            },
            UiCommand::ScrollTop => {
                self.scroll_offset = 0;
            },
            UiCommand::ScrollBottom => {
                self.scroll_offset = usize::MAX;
            },
        }
        UiEffect::Nothing
    }

    /// The rows to show of `total` rows in a table `height` rows high:
    /// the scroll offset, brought back so that the last page stays full.
    pub open spec fn window(self, total: usize, height: usize) -> (usize, usize) {
        let start = if self.scroll_offset > floored_difference(total, height) {
            floored_difference(total, height)
        } else {
            self.scroll_offset
        };
        let end = if start + height > total {
            total
        } else {
            (start + height) as usize
        };
        (start, end)
    }

    /// Brings the scroll offset into range and returns the first row to
    /// show and the end of the rows to show.
    pub fn visible_rows(&mut self, total: usize, height: usize) -> (r: (usize, usize))
        ensures
            r == old(self).window(total, height),
            *final(self) == (UIState { scroll_offset: r.0, ..*old(self) }),
            r.0 <= r.1 <= total,
            r.1 - r.0 <= height,
    {
        let max_scroll = total.saturating_sub(height);
        if self.scroll_offset > max_scroll {
            self.scroll_offset = max_scroll;
        }
        let start = self.scroll_offset;
        let end = if height > total - start {
            total
        } else {
            start + height
        };
        (start, end)
    }
}

} // verus!
