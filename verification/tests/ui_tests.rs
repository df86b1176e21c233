use iotop::preflight::{check_requirements, MissingRequirement};
use iotop::proc_cache::{task_path, CacheEntry, CacheTTL, ProcCache, STAT_TTL};
use iotop::proc_reader::ProcReader;
use iotop::process::ProcessInfo;
use iotop::scheduler::{StreamAction, StreamEvent, StreamState};
use iotop::sort::{compare_processes, order_str, sort_processes, visible_processes, Order};
use iotop::text::{chars_of, is_whitespace, parse_i32, parse_u32, parse_u64, string_of};
use iotop::ui::{SortColumn, UIState, UiCommand, UiEffect};
use iotop::users::{resolve_user, resolve_users, uid_from_lookup, UserError};

#[test]
fn available_columns_depend_on_delay_accounting() {
    assert_eq!(SortColumn::available_columns(true).len(), 8);
    let without = SortColumn::available_columns(false);
    assert_eq!(
        without,
        vec![
            SortColumn::Pid,
            SortColumn::Prio,
            SortColumn::User,
            SortColumn::Read,
            SortColumn::Write,
            SortColumn::Command
        ]
    );
    assert_eq!(SortColumn::available_columns(true)[5], SortColumn::Swapin);
    assert_eq!(SortColumn::available_columns(true)[6], SortColumn::Io);
}

#[test]
fn cycling_wraps_around() {
    assert_eq!(SortColumn::Pid.cycle_forward(true), SortColumn::Prio);
    assert_eq!(SortColumn::Command.cycle_forward(true), SortColumn::Pid);
    assert_eq!(SortColumn::Write.cycle_forward(true), SortColumn::Swapin);
    assert_eq!(SortColumn::Write.cycle_forward(false), SortColumn::Command);
    assert_eq!(SortColumn::Pid.cycle_backward(true), SortColumn::Command);
    assert_eq!(SortColumn::Command.cycle_backward(true), SortColumn::Io);
    assert_eq!(SortColumn::Command.cycle_backward(false), SortColumn::Write);
    assert_eq!(SortColumn::Io.cycle_forward(false), SortColumn::Pid);
    assert_eq!(SortColumn::Swapin.cycle_backward(false), SortColumn::Pid);
}

#[test]
fn cycling_there_and_back() {
    for has in [true, false] {
        for c in SortColumn::available_columns(has) {
            assert_eq!(c.cycle_forward(has).cycle_backward(has), c);
            assert_eq!(c.cycle_backward(has).cycle_forward(has), c);
        }
    }
}

#[test]
fn column_names_and_default_state() {
    assert_eq!(SortColumn::Pid.as_str(), "tid");
    assert_eq!(SortColumn::Command.as_str(), "command");
    let s = UIState::default();
    assert!(s.sort_reverse);
    assert!(!s.only_active && !s.accumulated && !s.paused && !s.show_processes);
    assert_eq!(s.sort_column, SortColumn::Pid);
    assert_eq!(s.scroll_offset, 0);
}

#[test]
fn scheduler_decisions() {
    let mut s = StreamState::new();
    assert_eq!(s.step(StreamEvent::Tick), StreamAction::Refresh);
    assert_eq!(s.step(StreamEvent::Refreshed { ok: false }), StreamAction::Wait);
    assert_eq!(s.step(StreamEvent::Tick), StreamAction::Refresh);
    assert_eq!(s.step(StreamEvent::Refreshed { ok: true }), StreamAction::Publish);
    assert_eq!(s.step(StreamEvent::Sent { delivered: true }), StreamAction::Wait);
    assert_eq!(s.published, 1);
    assert!(!s.stopped);
    assert_eq!(s.step(StreamEvent::Cancelled), StreamAction::Stop);
    assert!(s.stopped);
    assert_eq!(s.step(StreamEvent::Tick), StreamAction::Stop);
    assert_eq!(s.step(StreamEvent::Sent { delivered: true }), StreamAction::Stop);
    assert_eq!(s.published, 1);
    let mut t = StreamState::new();
    assert_eq!(t.step(StreamEvent::Sent { delivered: false }), StreamAction::Stop);
    assert!(t.stopped);
    assert_eq!(t.published, 0);
}

#[test]
fn preflight_reports_the_first_missing_feature() {
    assert_eq!(check_requirements(true, true), Ok(()));
    assert_eq!(check_requirements(false, true), Err(MissingRequirement::IoAccounting));
    assert_eq!(check_requirements(false, false), Err(MissingRequirement::IoAccounting));
    assert_eq!(check_requirements(true, false), Err(MissingRequirement::VmEventCounters));
    assert!(MissingRequirement::IoAccounting.message().contains("CONFIG_TASK_IO_ACCOUNTING"));
    assert!(MissingRequirement::IoAccounting.message().contains("kernel.task_delayacct"));
    assert!(MissingRequirement::VmEventCounters.message().contains("CONFIG_VM_EVENT_COUNTERS"));
}

#[test]
fn cache_keeps_static_entries_for_ever() {
    let mut cache = ProcCache::new();
    assert_eq!(cache.lookup("/proc/1/status", 0), None);
    cache.store("/proc/1/status", "Name:\tinit\n", CacheTTL::Static, 10);
    assert_eq!(cache.lookup("/proc/1/status", 10), Some("Name:\tinit\n".to_string()));
    assert_eq!(cache.lookup("/proc/1/status", u64::MAX), Some("Name:\tinit\n".to_string()));
    assert_eq!(cache.lookup("/proc/1/stat", 10), None);
}

#[test]
fn cache_expires_refreshed_entries() {
    let mut cache = ProcCache::new();
    cache.store("/proc/1/stat", "a", CacheTTL::Refresh(STAT_TTL), 1_000);
    assert_eq!(cache.lookup("/proc/1/stat", 1_000 + STAT_TTL - 1), Some("a".to_string()));
    assert_eq!(cache.lookup("/proc/1/stat", 1_000 + STAT_TTL), None);
    assert_eq!(cache.lookup("/proc/1/stat", 0), Some("a".to_string()));
    cache.store("/proc/1/stat", "b", CacheTTL::Refresh(STAT_TTL), 1_000 + STAT_TTL);
    cache.store("/proc/2/stat", "c", CacheTTL::Static, 0);
    assert_eq!(cache.lookup("/proc/1/stat", 1_000 + STAT_TTL), Some("b".to_string()));
    assert_eq!(cache.lookup("/proc/2/stat", 5), Some("c".to_string()));
    assert_eq!(cache.entries.len(), 2);
    let e = CacheEntry::new("p".to_string(), "q".to_string(), CacheTTL::Refresh(0), 5);
    assert!(!e.is_valid(5));
    assert!(CacheEntry::new("p".to_string(), "q".to_string(), CacheTTL::Static, 5).is_valid(0));
}

#[test]
fn paths_of_task_files() {
    let r = ProcReader::new(523);
    assert_eq!(r.dir_path(), "/proc/523");
    assert_eq!(r.status_path(), "/proc/523/status");
    assert_eq!(r.stat_path(), "/proc/523/stat");
    assert_eq!(r.cmdline_path(500), "/proc/500/cmdline");
    assert_eq!(task_path(-7, "/task"), "/proc/-7/task");
    assert_eq!(task_path(0, ""), "/proc/0");
    assert_eq!(task_path(i32::MIN, ""), "/proc/-2147483648");
    assert_eq!(task_path(i32::MAX, "/x"), "/proc/2147483647/x");
}

#[test]
fn numbers_are_parsed_as_std_does() {
    for s in ["0", "1", "+1", "-1", "-0", "007", "2147483647", "2147483648", "-2147483648", "-2147483649", "", "+", "-", "1a", " 1", "4294967295", "4294967296", "18446744073709551615", "18446744073709551616", "++1", "1_0"] {
        let v = chars_of(s);
        assert_eq!(parse_i32(&v), s.parse::<i32>().ok());
        assert_eq!(parse_u32(&v), s.parse::<u32>().ok());
        assert_eq!(parse_u64(&v), s.parse::<u64>().ok());
    }
}

#[test]
fn strings_are_ordered_as_std_orders_them() {
    let words = ["", "a", "ab", "b", "be/4", "be/10", "rt/0", "é", "z", "日本"];
    for a in words {
        for b in words {
            let want = if a < b {
                Order::Before
            } else if a > b {
                Order::After
            } else {
                Order::Same
            };
            assert_eq!(order_str(a, b), want);
        }
    }
}

fn entry(pid: i32, tid: i32, read: u64, cmd: &str) -> ProcessInfo {
    let mut p = ProcessInfo::new(pid);
    p.tid = tid;
    p.stats_delta.read_bytes = read;
    p.stats_accum.read_bytes = read * 10;
    p.cmdline = Some(cmd.to_string());
    p
}

#[test]
fn processes_are_sorted_by_the_chosen_column() {
    let a = entry(1, 1, 50, "zsh");
    let b = entry(2, 2, 70, "bash");
    let c = entry(2, 3, 70, "cat");
    let d = entry(4, 4, 0, "awk");
    let mut state = UIState::default();
    state.sort_column = SortColumn::Read;
    let mut shown: Vec<&ProcessInfo> = vec![&a, &b, &c, &d];
    sort_processes(&mut shown, &state);
    let tids: Vec<i32> = shown.iter().map(|p| p.tid).collect();
    assert_eq!(tids, vec![2, 3, 1, 4]);
    state.sort_reverse = false;
    sort_processes(&mut shown, &state);
    let tids: Vec<i32> = shown.iter().map(|p| p.tid).collect();
    assert_eq!(tids, vec![4, 1, 2, 3]);
    state.sort_column = SortColumn::Command;
    sort_processes(&mut shown, &state);
    let tids: Vec<i32> = shown.iter().map(|p| p.tid).collect();
    assert_eq!(tids, vec![1, 3, 2, 4]);
    state.sort_column = SortColumn::Pid;
    state.sort_reverse = true;
    sort_processes(&mut shown, &state);
    let tids: Vec<i32> = shown.iter().map(|p| p.tid).collect();
    assert_eq!(tids, vec![1, 2, 3, 4]);
    assert_eq!(compare_processes(&a, &b, &state), Order::Before);
    assert_eq!(compare_processes(&b, &a, &state), Order::After);
    assert_eq!(compare_processes(&a, &a, &state), Order::Same);
}

#[test]
fn numeric_owners_stand_for_themselves() {
    assert_eq!(resolve_user("0"), Ok(0));
    assert_eq!(resolve_user("1000"), Ok(1000));
    assert_eq!(resolve_users(&vec!["5".to_string(), "+7".to_string()]), Ok(vec![5, 7]));
    assert_eq!(resolve_users(&Vec::new()), Ok(Vec::new()));
    assert_eq!(uid_from_lookup("12", Ok(Some(99))), Ok(12));
    assert_eq!(uid_from_lookup("alice", Ok(Some(99))), Ok(99));
    assert_eq!(uid_from_lookup("alice", Ok(None)), Err(UserError::Unknown));
    assert_eq!(uid_from_lookup("alice", Err(())), Err(UserError::Lookup));
    assert!(resolve_user("no-such-user-by-this-name-xyz").is_err());
    assert!(resolve_users(&vec!["1".to_string(), "no-such-user-by-this-name-xyz".to_string()]).is_err());
}

#[test]
fn commands_change_the_state() {
    let mut s = UIState::default();
    s.scroll_offset = 9;
    assert_eq!(s.apply(UiCommand::TogglePause, true), UiEffect::Nothing);
    assert!(s.paused);
    assert_eq!(s.scroll_offset, 9);
    assert_eq!(s.apply(UiCommand::ScrollUp(10), true), UiEffect::Nothing);
    assert_eq!(s.scroll_offset, 0);
    assert_eq!(s.apply(UiCommand::ScrollDown(3), true), UiEffect::Nothing);
    assert_eq!(s.scroll_offset, 3);
    s.apply(UiCommand::ScrollBottom, true);
    assert_eq!(s.scroll_offset, usize::MAX);
    s.apply(UiCommand::ScrollDown(3), true);
    assert_eq!(s.scroll_offset, usize::MAX);
    assert_eq!(s.apply(UiCommand::SortLeft, false), UiEffect::Nothing);
    assert_eq!(s.sort_column, SortColumn::Command);
    assert_eq!(s.scroll_offset, 0);
    s.apply(UiCommand::SortRight, false);
    assert_eq!(s.sort_column, SortColumn::Pid);
    s.apply(UiCommand::SortLast, true);
    assert_eq!(s.sort_column, SortColumn::Command);
    s.apply(UiCommand::SortFirst, true);
    assert_eq!(s.sort_column, SortColumn::Pid);
    assert_eq!(s.apply(UiCommand::ToggleProcesses, true), UiEffect::RestartStream);
    assert!(s.show_processes);
    assert_eq!(s.apply(UiCommand::Quit, true), UiEffect::Quit);
    s.apply(UiCommand::ToggleOnlyActive, true);
    s.apply(UiCommand::ToggleAccumulated, true);
    s.apply(UiCommand::ToggleReverse, true);
    assert!(s.only_active && s.accumulated && !s.sort_reverse);
    s.apply(UiCommand::ScrollTop, true);
    assert_eq!(s.scroll_offset, 0);
}

#[test]
fn visible_rows_keep_the_last_page_full() {
    let mut s = UIState::default();
    s.scroll_offset = 95;
    assert_eq!(s.visible_rows(100, 10), (90, 100));
    assert_eq!(s.scroll_offset, 90);
    s.scroll_offset = 5;
    assert_eq!(s.visible_rows(100, 10), (5, 15));
    assert_eq!(s.visible_rows(3, 10), (0, 3));
    assert_eq!(s.scroll_offset, 0);
    s.scroll_offset = usize::MAX;
    assert_eq!(s.visible_rows(0, 10), (0, 0));
    s.scroll_offset = usize::MAX;
    assert_eq!(s.visible_rows(7, 0), (7, 7));
    assert_eq!(s.visible_rows(usize::MAX, usize::MAX), (0, usize::MAX));
}

#[test]
fn test_cache_basic() {
    let mut cache = ProcCache::new();

    assert!(cache.lookup("/proc/self/status", 0).is_none());
    cache.store("/proc/self/status", "Name:\tcat\nTgid:\t1\nPid:\t1\n", CacheTTL::Static, 0);
    let result = cache.lookup("/proc/self/status", 0);
    assert!(result.is_some());

    let result2 = cache.lookup("/proc/self/status", 1);
    assert!(result2.is_some());
    assert_eq!(result.unwrap(), result2.unwrap());
}

#[test]
fn white_space_is_what_char_says() {
    for code in 0..=0x10ffffu32 {
        if let Some(c) = char::from_u32(code) {
            assert_eq!(is_whitespace(c), c.is_whitespace());
        }
    }
}

#[test]
fn strings_and_characters_convert_both_ways() {
    for s in ["", "a", "be/4", "日本 語", "a\0b"] {
        let v = chars_of(s);
        assert_eq!(v, s.chars().collect::<Vec<char>>());
        assert_eq!(string_of(&v), s);
    }
}

#[test]
fn only_active_entries_are_shown_when_asked() {
    let all = vec![entry(1, 1, 50, "zsh"), entry(2, 2, 0, "bash"), entry(3, 3, 70, "cat")];
    let mut state = UIState::default();
    state.sort_column = SortColumn::Read;
    let tids: Vec<i32> = visible_processes(&all, &state).iter().map(|p| p.tid).collect();
    assert_eq!(tids, vec![3, 1, 2]);
    state.only_active = true;
    state.accumulated = true;
    let tids: Vec<i32> = visible_processes(&all, &state).iter().map(|p| p.tid).collect();
    assert_eq!(tids, vec![3, 1]);
    state.accumulated = false;
    assert!(visible_processes(&all, &state).is_empty());
}
