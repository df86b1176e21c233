use iotop::proc_reader::{ProcError, ProcReader, ProcStatus};

#[test]
fn test_parse_status() {
    let content = "Name:\ttest\nTgid:\t1234\nPid:\t1234\nPPid:\t1\n";
    let status = ProcStatus::parse(content);
    assert!(status.is_some());
    let status = status.unwrap();
    assert_eq!(status.name, "test");
    assert_eq!(status.tgid, 1234);
    assert_eq!(status.pid, 1234);
}

#[test]
fn test_parse_cmdline_normal_path() {
    let cmdline = "/usr/bin/bash\0-l\0";
    let result = ProcReader::parse_cmdline(cmdline, 1234, 1234, "bash", None);
    assert!(result.is_ok());
    assert_eq!(result.unwrap(), "bash -l");
}

#[test]
fn test_parse_cmdline_with_colon() {
    let cmdline = "sshd-session: happy@pts/6\0";
    let result = ProcReader::parse_cmdline(cmdline, 1234, 1234, "sshd-session", None);
    assert!(result.is_ok());
    assert_eq!(result.unwrap(), "sshd-session: happy@pts/6");
}

#[test]
fn test_parse_cmdline_sshd_listener() {
    let cmdline = "sshd: /usr/bin/sshd\0-D\0";
    let result = ProcReader::parse_cmdline(cmdline, 1234, 1234, "sshd", None);
    assert!(result.is_ok());
    assert_eq!(result.unwrap(), "sshd: /usr/bin/sshd -D");
}

#[test]
fn test_parse_cmdline_no_path() {
    let cmdline = "python\0script.py\0";
    let result = ProcReader::parse_cmdline(cmdline, 1234, 1234, "python", None);
    assert!(result.is_ok());
    assert_eq!(result.unwrap(), "python script.py");
}

#[test]
fn status_needs_all_three_fields() {
    assert!(ProcStatus::parse("Name:\ttest\nTgid:\t1\n").is_none());
    assert!(ProcStatus::parse("Tgid:\t1\nPid:\t1\n").is_none());
    assert!(ProcStatus::parse("Name:\ttest\nPid:\t1\n").is_none());
    assert!(ProcStatus::parse("").is_none());
    assert!(ProcStatus::parse("Name:\ttest\nTgid:\tx\nPid:\t1\n").is_none());
    assert!(ProcStatus::parse("Name:\ttest\nTgid:\t\nPid:\t1\n").is_none());
    assert!(ProcStatus::parse("Name:\ttest\nTgid:\t0\nPid:\t1\n").is_none());
}

#[test]
fn status_takes_last_value_and_first_word() {
    let s = ProcStatus::parse("Name:  my name \r\nTgid: 12 extra\nPid:\t-7\nName: other\nno colon here\n")
        .unwrap();
    assert_eq!(s.name, "other");
    assert_eq!(s.tgid, 12);
    assert_eq!(s.pid, -7);
    let t = ProcStatus::parse(" Name :a b\nTgid:+5\nPid:6").unwrap();
    assert_eq!(t.name, "a b");
    assert_eq!(t.tgid, 5);
    assert_eq!(t.pid, 6);
}

fn stat_line(comm: &str, nice: &str) -> String {
    format!("1234 ({}) S 1 2 3 4 5 6 7 8 9 10 11 12 13 14 20 {} 1 0 100", comm, nice)
}

#[test]
fn nice_is_the_seventeenth_field_after_the_last_parenthesis() {
    let r = ProcReader::new(1234);
    assert_eq!(r.read_nice(&stat_line("bash", "0")), Ok(0));
    assert_eq!(r.read_nice(&stat_line("bash", "-5")), Ok(-5));
    assert_eq!(r.read_nice(&stat_line("a) b (c", "19")), Ok(19));
    assert_eq!(r.read_nice(&stat_line("x) 1 2 3 4 5 6 7 8 9 10 11 12 13 14 15 16 77 (y", "3")), Ok(3));
}

#[test]
fn nice_errors() {
    let r = ProcReader::new(1);
    assert_eq!(r.read_nice("1234 bash S 1 2"), Err(ProcError::InvalidStat));
    assert_eq!(r.read_nice("1234 (bash S 1 2"), Err(ProcError::InvalidStat));
    assert_eq!(r.read_nice("1234 bash) S 1 2"), Err(ProcError::InvalidStat));
    assert_eq!(r.read_nice("1234 (bash) S 1 2"), Err(ProcError::StatTooShort));
    assert_eq!(r.read_nice(&stat_line("bash", "zz")), Err(ProcError::InvalidNice));
    assert_eq!(r.read_nice(""), Err(ProcError::InvalidStat));
}

#[test]
fn kernel_thread_is_shown_in_brackets() {
    assert_eq!(ProcReader::parse_cmdline("", 2, 2, "kthreadd", None).unwrap(), "[kthreadd]");
    assert_eq!(ProcReader::parse_cmdline("\0\0", 2, 2, "kworker/0:1", None).unwrap(), "[kworker/0:1]");
}

#[test]
fn thread_name_suffix() {
    let leader = "Name:\tpython\nTgid:\t500\nPid:\t500\n";
    let shown =
        ProcReader::parse_cmdline("/usr/bin/python\0app.py\0", 500, 523, "Worker-3", Some(leader));
    assert_eq!(shown.unwrap(), "python app.py [Worker-3]");
    let same =
        ProcReader::parse_cmdline("/usr/bin/python\0app.py\0", 500, 523, "python", Some(leader));
    assert_eq!(same.unwrap(), "python app.py");
    let unknown = ProcReader::parse_cmdline("/usr/bin/python\0app.py\0", 500, 523, "Worker-3", None);
    assert_eq!(unknown.unwrap(), "python app.py");
    let broken =
        ProcReader::parse_cmdline("/usr/bin/python\0app.py\0", 500, 523, "Worker-3", Some("junk"));
    assert_eq!(broken.unwrap(), "python app.py");
    let main_thread =
        ProcReader::parse_cmdline("/usr/bin/python\0app.py\0", 500, 500, "Worker-3", Some(leader));
    assert_eq!(main_thread.unwrap(), "python app.py");
}

#[test]
fn cmdline_skips_empty_arguments() {
    assert_eq!(ProcReader::parse_cmdline("\0/bin/a\0\0b\0\0\0c", 1, 1, "a", None).unwrap(), "a b c");
    assert_eq!(ProcReader::parse_cmdline("/bin/", 1, 1, "a", None).unwrap(), "");
    assert_eq!(ProcReader::parse_cmdline("./x:y/z\0", 1, 1, "a", None).unwrap(), "z");
    assert_eq!(ProcReader::parse_cmdline("a:b/c/d\0", 1, 1, "a", None).unwrap(), "a:b/c/d");
}

#[test]
fn metadata_bundle_from_file_contents() {
    let r = ProcReader::new(523);
    let status = "Name:\tWorker-3\nTgid:\t500\nPid:\t523\n";
    let leader = "Name:\tpython\nTgid:\t500\nPid:\t500\n";
    let m = r
        .metadata_bundle(500, 1000, status, &stat_line("Worker-3", "0"), "/usr/bin/python\0app.py\0", Some(leader), 0, 0)
        .unwrap();
    assert_eq!(m.pid, 500);
    assert_eq!(m.tid, 523);
    assert_eq!(m.uid, 1000);
    assert_eq!(m.cmdline, "python app.py [Worker-3]");
    assert_eq!(m.priority_str, "be/4");
    let nice = r
        .metadata_bundle(500, 0, status, &stat_line("Worker-3", "19"), "", None, -1, 0)
        .unwrap();
    assert_eq!(nice.priority_str, "be/7");
    assert_eq!(nice.cmdline, "[Worker-3]");
}

#[test]
fn metadata_bundle_errors() {
    let r = ProcReader::new(1);
    let status = "Name:\tinit\nTgid:\t1\nPid:\t1\n";
    assert_eq!(
        r.metadata_bundle(1, 0, "junk", &stat_line("init", "0"), "", None, 0, 0).err(),
        Some(ProcError::InvalidStatus)
    );
    assert_eq!(r.metadata_bundle(1, 0, status, "1 (init) S", "", None, 0, 0).err(), Some(ProcError::StatTooShort));
    assert_eq!(r.metadata_bundle(1, 0, status, "1 init S", "", None, 0, 0).err(), Some(ProcError::InvalidStat));
    assert_eq!(
        r.metadata_bundle(1, 0, status, &stat_line("init", "n"), "", None, 0, 0).err(),
        Some(ProcError::InvalidNice)
    );
}

#[test]
fn metadata_priority_prefers_what_the_kernel_reports() {
    let r = ProcReader::new(1);
    let status = "Name:\tinit\nTgid:\t1\nPid:\t1\n";
    let stat = stat_line("init", "10");
    let prio = |ioprio: i64, policy: i32| {
        r.metadata_bundle(1, 0, status, &stat, "/sbin/init\0", None, ioprio, policy)
            .unwrap()
            .priority_str
    };
    assert_eq!(prio((1 << 13) | 2, 0), "rt/2");
    assert_eq!(prio(3 << 13, 0), "idle");
    assert_eq!(prio((2 << 13) | 7, 1), "be/7");
    assert_eq!(prio(0, 0), "be/6");
    assert_eq!(prio(-1, 1), "rt/6");
    assert_eq!(prio(-1, 2), "rt/6");
    assert_eq!(prio(-1, 5), "idle");
    assert_eq!(prio(-1, -1), "?err");
}
