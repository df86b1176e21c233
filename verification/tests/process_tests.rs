use iotop::proc_reader::ProcessMetadata;
use iotop::process::{collect_thread_stats, ProcessInfo, ThreadInfo};
use iotop::process_list::{record_item, thread_list, ProcessList, ScanItem};
use iotop::taskstats::{DelayAcct, TaskStats};

fn stats(blkio: u64, swapin: u64, read: u64, write: u64, cancelled: u64) -> TaskStats {
    TaskStats::from_kernel_stats(blkio as u128, swapin as u128, read, write, cancelled)
}

fn item(key: i32, pid: i32, tid: i32, s: Option<TaskStats>) -> ScanItem {
    ScanItem { key, pid, tid, stats: s }
}

fn find(list: &ProcessList, key: i32) -> &ProcessInfo {
    list.processes.iter().find(|p| p.key == key).unwrap()
}

#[test]
fn kernel_sample_keeps_low_bits_of_delays() {
    let s = TaskStats::from_kernel_stats((1u128 << 64) + 5, 7, 1, 2, 3);
    assert_eq!(s.blkio_delay_total, 5);
    assert_eq!(s.swapin_delay_total, 7);
    assert_eq!((s.read_bytes, s.write_bytes, s.cancelled_write_bytes), (1, 2, 3));
    assert_eq!(s.version, 0);
}

#[test]
fn delay_accounting_latches() {
    let mut d = DelayAcct::new();
    assert!(!d.has_delay_acct());
    assert_eq!(d.get_task_stats(None), None);
    assert_eq!(d.get_task_stats(Some(stats(0, 9, 9, 9, 9))), Some(stats(0, 9, 9, 9, 9)));
    assert!(!d.has_delay_acct());
    d.observe(&stats(3, 0, 0, 0, 0));
    assert!(d.has_delay_acct());
    d.observe(&stats(0, 0, 0, 0, 0));
    assert!(d.has_delay_acct());
}

#[test]
fn thread_first_sample_gives_zero_delta() {
    let mut t = ThreadInfo::new(7);
    assert_eq!(t.tid, 7);
    assert!(t.stats_total.is_none());
    t.update_stats(stats(5, 5, 100, 200, 0));
    assert!(t.stats_delta.is_all_zero());
    assert_eq!(t.stats_total, Some(stats(5, 5, 100, 200, 0)));
    t.update_stats(stats(6, 5, 150, 200, 1));
    assert_eq!(t.stats_delta, stats(1, 0, 50, 0, 1));
    assert_eq!(t.stats_total, Some(stats(6, 5, 150, 200, 1)));
}

#[test]
fn counter_reset_gives_zero_delta() {
    let mut t = ThreadInfo::new(7);
    t.update_stats(stats(50, 50, 1000, 2000, 10));
    t.update_stats(stats(1, 1, 10, 20, 0));
    assert!(t.stats_delta.is_all_zero());
    assert_eq!(t.stats_total, Some(stats(1, 1, 10, 20, 0)));
}

#[test]
fn failed_sample_leaves_thread_alone() {
    let mut t = ThreadInfo::new(7);
    t.update_stats(stats(1, 1, 10, 20, 0));
    t.update_stats(stats(2, 1, 15, 20, 0));
    let before = t;
    assert_eq!(collect_thread_stats(&mut t, None), (0, 0));
    assert_eq!(t.stats_total, before.stats_total);
    assert_eq!(t.stats_delta, before.stats_delta);
    assert_eq!(collect_thread_stats(&mut t, Some(stats(2, 1, 18, 27, 0))), (3, 7));
}

#[test]
fn process_aggregate_sums_bytes_and_averages_delays() {
    let mut p = ProcessInfo::new(500);
    assert!(!p.update_stats());
    p.record_sample(1, Some(stats(0, 0, 0, 0, 0)));
    p.record_sample(2, Some(stats(0, 0, 0, 0, 0)));
    p.record_sample(1, Some(stats(1_000_000, 10, 100, 7, 1)));
    p.record_sample(2, Some(stats(3_000_000, 21, 50, 3, 2)));
    assert!(p.update_stats());
    assert_eq!(p.stats_delta, stats(2_000_000, 15, 150, 10, 3));
    assert_eq!(p.stats_accum, stats(2_000_000, 15, 150, 10, 3));
    assert!(p.update_stats());
    assert_eq!(p.stats_accum, stats(4_000_000, 30, 300, 20, 6));
    assert_eq!(p.threads.len(), 2);
}

#[test]
fn aggregate_saturates() {
    let mut p = ProcessInfo::new(1);
    p.record_sample(1, Some(stats(0, 0, 0, 0, 0)));
    p.record_sample(2, Some(stats(0, 0, 0, 0, 0)));
    p.record_sample(1, Some(stats(u64::MAX, 0, u64::MAX, 0, 0)));
    p.record_sample(2, Some(stats(u64::MAX, 0, 5, 0, 0)));
    p.update_stats();
    assert_eq!(p.stats_delta.read_bytes, u64::MAX);
    assert_eq!(p.stats_delta.blkio_delay_total, u64::MAX / 2);
}

#[test]
fn did_some_io_looks_at_threads_or_totals() {
    let mut p = ProcessInfo::new(1);
    assert!(!p.did_some_io(false));
    assert!(!p.did_some_io(true));
    p.record_sample(1, Some(stats(0, 0, 0, 0, 0)));
    p.record_sample(1, Some(stats(0, 0, 1, 0, 0)));
    assert!(p.did_some_io(false));
    assert!(!p.did_some_io(true));
    p.update_stats();
    assert!(p.did_some_io(true));
    p.record_sample(1, Some(stats(0, 0, 1, 0, 0)));
    assert!(!p.did_some_io(false));
    assert!(p.did_some_io(true));
}

#[test]
fn getters_fall_back_until_metadata_is_known() {
    let mut p = ProcessInfo::new(1);
    assert_eq!(p.get_user(), "?");
    assert_eq!(p.get_prio(), "be/4");
    assert_eq!(p.get_cmdline(), "{no such process}");
    p.user = Some("root".to_string());
    p.prio = Some("rt/1".to_string());
    p.cmdline = Some("init".to_string());
    assert_eq!(p.get_user(), "root");
    assert_eq!(p.get_prio(), "rt/1");
    assert_eq!(p.get_cmdline(), "init");
    let c = p.copy();
    assert_eq!(c.get_cmdline(), "init");
    assert_eq!(c.pid, 1);
}

#[test]
fn user_label_is_cut_to_eight_characters() {
    assert_eq!(ProcessInfo::user_from_lookup(Some(1000), Some("alice".to_string())), "alice");
    assert_eq!(ProcessInfo::user_from_lookup(Some(1000), Some("systemd-network".to_string())), "systemd-");
    assert_eq!(ProcessInfo::user_from_lookup(Some(1000), Some("üüüüüüüüü".to_string())), "üüüüüüüü");
    assert_eq!(ProcessInfo::user_from_lookup(Some(1000), None), "1000");
    assert_eq!(ProcessInfo::user_from_lookup(Some(4_000_000_000), None), "40000000");
    assert_eq!(ProcessInfo::user_from_lookup(None, Some("alice".to_string())), "0");
    assert_eq!(ProcessInfo::user_from_lookup(None, None), "0");
}

#[test]
fn compute_user_gives_at_most_eight_characters() {
    let mut p = ProcessInfo::new(1);
    assert_eq!(p.compute_user(), "0");
    p.uid = Some(0);
    let shown = p.compute_user();
    assert!(shown.chars().count() <= 8);
    assert!(!shown.is_empty());
    p.uid = Some(4_000_000_123);
    let other = p.compute_user();
    assert!(other.chars().count() <= 8);
}

#[test]
fn simple_delta_over_two_ticks() {
    let mut list = ProcessList::new(0);
    let (total, actual) = list.refresh_processes(1_000_000_000, None, &vec![item(100, 100, 100, Some(stats(0, 0, 0, 0, 0)))]);
    assert_eq!(total, (0, 0));
    assert_eq!(actual, (0, 0));
    assert_eq!(list.duration, 1_000_000_000);
    let (total, _) = list.refresh_processes(2_000_000_000, None, &vec![item(100, 100, 100, Some(stats(0, 0, 4096, 0, 0)))]);
    assert_eq!(total, (4096, 0));
    let p = find(&list, 100);
    assert_eq!(p.stats_delta.read_bytes, 4096);
    assert_eq!(p.stats_accum.read_bytes, 4096);
    assert_eq!(list.duration, 1_000_000_000);
    assert_eq!(list.timestamp, 2_000_000_000);
}

#[test]
fn first_tick_has_zero_deltas_and_totals() {
    let mut list = ProcessList::new(5);
    let items = vec![
        item(1, 1, 1, Some(stats(9, 9, 9, 9, 9))),
        item(1, 1, 2, Some(stats(8, 8, 8, 8, 8))),
        item(7, 7, 7, Some(stats(7, 7, 7, 7, 7))),
        item(9, 9, 9, None),
    ];
    let (total, actual) = list.refresh_processes(10, Some("pgpgin 1000\npgpgout 500\n"), &items);
    assert_eq!(total, (0, 0));
    assert_eq!(actual, (0, 0));
    assert_eq!(list.duration, 5);
    assert_eq!(list.processes.len(), 3);
    for p in &list.processes {
        assert!(!p.threads.is_empty());
        assert!(p.stats_delta.is_all_zero());
        for t in &p.threads {
            assert!(t.stats_delta.is_all_zero());
        }
    }
    assert_eq!(find(&list, 1).threads.len(), 2);
    assert!(find(&list, 9).threads[0].stats_total.is_none());
}

#[test]
fn delay_averaging_in_process_mode() {
    let mut list = ProcessList::new(0);
    let first = vec![item(500, 500, 500, Some(stats(0, 0, 0, 0, 0))), item(500, 500, 523, Some(stats(0, 0, 0, 0, 0)))];
    list.refresh_processes(1, None, &first);
    let second = vec![
        item(500, 500, 500, Some(stats(1_000_000, 0, 10, 1, 0))),
        item(500, 500, 523, Some(stats(3_000_000, 0, 20, 2, 0))),
    ];
    let (total, _) = list.refresh_processes(2, None, &second);
    assert_eq!(total, (30, 3));
    let p = find(&list, 500);
    assert_eq!(p.stats_delta.blkio_delay_total, 2_000_000);
    assert_eq!(p.stats_delta.read_bytes, 30);
    assert_eq!(p.stats_accum.read_bytes, 30);
    assert_eq!(p.tid, 500);
    assert_eq!(p.pid, 500);
}

#[test]
fn thread_mode_keys_entries_by_thread() {
    let mut list = ProcessList::new(0);
    let items = vec![item(500, 500, 500, Some(stats(0, 0, 1, 0, 0))), item(523, 500, 523, Some(stats(0, 0, 2, 0, 0)))];
    list.refresh_processes(1, None, &items);
    assert_eq!(list.processes.len(), 2);
    let p = find(&list, 523);
    assert_eq!((p.pid, p.tid, p.threads.len()), (500, 523, 1));
}

#[test]
fn failed_sample_contributes_zero() {
    let mut list = ProcessList::new(0);
    list.refresh_processes(1, None, &vec![item(1, 1, 1, Some(stats(0, 0, 10, 10, 0)))]);
    list.refresh_processes(2, None, &vec![item(1, 1, 1, Some(stats(0, 0, 30, 15, 0)))]);
    let (total, _) = list.refresh_processes(3, None, &vec![item(1, 1, 1, None)]);
    assert_eq!(total, (0, 0));
    let p = find(&list, 1);
    assert_eq!(p.threads[0].stats_total, Some(stats(0, 0, 30, 15, 0)));
    assert_eq!(p.stats_accum.read_bytes, 40);
}

#[test]
fn running_totals_never_shrink() {
    let mut list = ProcessList::new(0);
    list.refresh_processes(1, None, &vec![item(1, 1, 1, Some(stats(5, 5, 100, 100, 5)))]);
    list.refresh_processes(2, None, &vec![item(1, 1, 1, Some(stats(9, 9, 300, 200, 9)))]);
    let before = find(&list, 1).stats_accum;
    list.refresh_processes(3, None, &vec![item(1, 1, 1, Some(stats(1, 1, 1, 1, 1)))]);
    let after = find(&list, 1).stats_accum;
    assert_eq!(before, stats(4, 4, 200, 100, 4));
    assert_eq!(after, before);
}

#[test]
fn vm_totals_between_two_readings() {
    let mut list = ProcessList::new(0);
    let (_, first) = list.refresh_processes(1, Some("pgpgin 1000\npgpgout 500\n"), &Vec::new());
    assert_eq!(first, (0, 0));
    let (_, second) = list.refresh_processes(2, Some("nr_free_pages 5\npgpgin 1100\npgpgout 520\n"), &Vec::new());
    assert_eq!(second, (409600, 81920));
    assert_eq!(list.prev_pgpgin, Some(1100 * 4096));
    assert_eq!(list.prev_pgpgout, Some(520 * 4096));
}

#[test]
fn missing_vmstat_gives_zero_and_keeps_previous() {
    let mut list = ProcessList::new(0);
    list.refresh_processes(1, Some("pgpgin 1000\npgpgout 500\n"), &Vec::new());
    let (_, actual) = list.refresh_processes(2, None, &Vec::new());
    assert_eq!(actual, (0, 0));
    assert_eq!(list.prev_pgpgin, Some(1000 * 4096));
    assert_eq!(list.prev_pgpgout, Some(500 * 4096));
    let (_, later) = list.refresh_processes(3, Some("pgpgin 1001\npgpgout 500\n"), &Vec::new());
    assert_eq!(later, (4096, 0));
}

#[test]
fn vmstat_parsing() {
    assert_eq!(ProcessList::read_vmstat("pgpgin 2\npgpgout 3"), (8192, 12288));
    assert_eq!(ProcessList::read_vmstat(""), (0, 0));
    assert_eq!(ProcessList::read_vmstat("pgpgin\npgpgout x\n"), (0, 0));
    assert_eq!(ProcessList::read_vmstat("  pgpgin\t7 extra\r\npgpgin_other 9\n"), (7 * 4096, 0));
    assert_eq!(ProcessList::read_vmstat("pgpgin 18446744073709551615\n"), (u64::MAX, 0));
    assert_eq!(ProcessList::read_vmstat("pgpgin 18446744073709551616\npgpgout 1\n"), (0, 4096));
    assert_eq!(ProcessList::read_vmstat("pgpgin 5\npgpgin 6\n"), (6 * 4096, 0));
}

#[test]
fn clock_going_back_gives_zero_duration() {
    let mut list = ProcessList::new(100);
    list.refresh_processes(50, None, &Vec::new());
    assert_eq!(list.duration, 0);
    assert_eq!(list.timestamp, 50);
}

#[test]
fn plan_in_process_mode() {
    let list = ProcessList::new(0);
    let mut out = Vec::new();
    list.plan_group(true, 500, Some(0), &vec![500, 523], &mut out);
    list.plan_group(true, 600, None, &thread_list(600, None), &mut out);
    let got: Vec<(i32, i32, i32)> = out.iter().map(|i| (i.key, i.pid, i.tid)).collect();
    assert_eq!(got, vec![(500, 500, 500), (500, 500, 523), (600, 600, 600)]);
    assert!(out.iter().all(|i| i.stats.is_none()));
}

#[test]
fn plan_in_thread_mode() {
    let list = ProcessList::new(0);
    let mut out = Vec::new();
    list.plan_group(false, 500, Some(0), &thread_list(500, Some(vec![500, 523])), &mut out);
    let got: Vec<(i32, i32, i32)> = out.iter().map(|i| (i.key, i.pid, i.tid)).collect();
    assert_eq!(got, vec![(500, 500, 500), (523, 500, 523)]);
}

#[test]
fn plan_applies_filters() {
    let list = ProcessList::new(0).with_pids(vec![523, 600]).with_uids(vec![1000]);
    let mut out = Vec::new();
    list.plan_group(false, 500, Some(1000), &vec![500, 523], &mut out);
    list.plan_group(false, 600, Some(0), &vec![600], &mut out);
    list.plan_group(false, 600, None, &vec![600], &mut out);
    let got: Vec<(i32, i32, i32)> = out.iter().map(|i| (i.key, i.pid, i.tid)).collect();
    assert_eq!(got, vec![(523, 500, 523)]);
    let mut procs = Vec::new();
    list.plan_group(true, 500, Some(1000), &vec![500, 523], &mut procs);
    assert!(procs.is_empty());
    list.plan_group(true, 600, Some(1000), &vec![600, 601], &mut procs);
    assert_eq!(procs.len(), 2);
    assert_eq!((procs[1].key, procs[1].tid), (600, 601));
}

#[test]
fn entries_without_threads_are_evicted() {
    let mut list = ProcessList::new(0);
    list.processes.push(ProcessInfo::new(1));
    let mut with_thread = ProcessInfo::new(2);
    with_thread.record_sample(2, None);
    list.processes.push(with_thread);
    list.processes.push(ProcessInfo::new(3));
    list.evict_empty();
    assert_eq!(list.processes.len(), 1);
    assert_eq!(list.processes[0].key, 2);
}

fn metadata(pid: i32, tid: i32, uid: u32, cmdline: &str, prio: &str) -> ProcessMetadata {
    ProcessMetadata { pid, tid, uid, cmdline: cmdline.to_string(), priority_str: prio.to_string() }
}

#[test]
fn metadata_is_latched_once() {
    let mut p = ProcessInfo::new(523);
    ProcessList::apply_metadata(&mut p, None, "x".to_string());
    assert!(!p.metadata_initialized);
    assert_eq!(p.get_cmdline(), "{no such process}");
    ProcessList::apply_metadata(&mut p, Some(metadata(500, 523, 1000, "python app.py", "be/4")), "alice".to_string());
    assert!(p.metadata_initialized);
    assert_eq!((p.pid, p.tid, p.uid), (500, 523, Some(1000)));
    assert_eq!((p.get_user(), p.get_prio(), p.get_cmdline()), ("alice", "be/4", "python app.py"));
    ProcessList::apply_metadata(&mut p, Some(metadata(1, 2, 3, "other", "rt/0")), "bob".to_string());
    assert_eq!((p.pid, p.tid, p.uid), (500, 523, Some(1000)));
    assert_eq!((p.get_user(), p.get_prio(), p.get_cmdline()), ("alice", "be/4", "python app.py"));
}

#[test]
fn pending_metadata_lists_entries_without() {
    let mut list = ProcessList::new(0);
    let items = vec![item(500, 500, 500, None), item(523, 500, 523, None), item(7, 7, 7, None)];
    list.refresh_processes(1, None, &items);
    assert_eq!(list.pending_metadata(), vec![(500, 500), (523, 500), (7, 7)]);
    list.set_metadata(523, Some(metadata(500, 523, 4_000_000_123, "x", "be/4")));
    list.set_metadata(7, None);
    list.set_metadata(12345, Some(metadata(1, 1, 1, "y", "be/4")));
    assert_eq!(list.pending_metadata(), vec![(500, 500), (7, 7)]);
    let p = find(&list, 523);
    assert_eq!(p.get_cmdline(), "x");
    assert_eq!(p.uid, Some(4_000_000_123));
    assert!(p.get_user().chars().count() <= 8);
    list.refresh_processes(2, None, &items);
    assert_eq!(find(&list, 523).get_cmdline(), "x");
    assert_eq!(find(&list, 523).tid, 523);
}

#[test]
fn snapshot_copies_the_entries() {
    let mut list = ProcessList::new(0);
    list.refresh_processes(7, None, &vec![item(1, 1, 1, Some(stats(0, 0, 1, 1, 0)))]);
    let snap = list.snapshot((1, 2), (3, 4));
    assert_eq!(snap.total_io, (1, 2));
    assert_eq!(snap.actual_io, (3, 4));
    assert_eq!(snap.duration, 7);
    assert_eq!(snap.processes.len(), 1);
    assert_eq!(snap.processes[0].key, 1);
    assert_eq!(snap.processes[0].threads.len(), 1);
}

#[test]
fn record_item_aggregates_at_the_end_of_a_run() {
    let mut procs = Vec::new();
    record_item(&mut procs, &item(1, 1, 1, Some(stats(0, 0, 0, 0, 0))), true);
    assert_eq!(record_item(&mut procs, &item(1, 1, 1, Some(stats(0, 0, 5, 6, 0))), false), (5, 6));
    assert_eq!(procs[0].stats_accum.read_bytes, 0);
    assert_eq!(record_item(&mut procs, &item(1, 1, 2, Some(stats(0, 0, 5, 6, 0))), true), (0, 0));
    assert_eq!(procs[0].stats_accum.read_bytes, 5);
    assert_eq!(procs.len(), 1);
}
