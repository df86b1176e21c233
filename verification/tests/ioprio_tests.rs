use iotop::ioprio::{
    get_ioprio, get_ioprio_from_sched, get_ioprio_string, ioprio_from_syscall, nice_to_level,
    Ioprio, IoprioClass, IoprioError, SCHED_FIFO, SCHED_IDLE, SCHED_RR,
};

#[test]
fn test_ioprio_from_string() {
    assert!(Ioprio::from_string("be/4").is_ok());
    assert!(Ioprio::from_string("rt/0").is_ok());
    assert!(Ioprio::from_string("idle").is_ok());
    assert!(Ioprio::from_string("invalid").is_err());
}

#[test]
fn test_ioprio_display() {
    let ioprio = Ioprio::new(IoprioClass::BestEffort, 4);
    assert_eq!(ioprio.to_string(), "be/4");

    let ioprio = Ioprio::new(IoprioClass::Idle, 0);
    assert_eq!(ioprio.to_string(), "idle");
}

#[test]
fn test_ioprio_raw_conversion() {
    let ioprio = Ioprio::new(IoprioClass::BestEffort, 4);
    let raw = ioprio.to_raw();
    let parsed = Ioprio::from_raw(raw);

    assert_eq!(parsed.class, ioprio.class);
    assert_eq!(parsed.data, ioprio.data);
}

#[test]
fn raw_word_packs_class_above_bit_thirteen() {
    assert_eq!(Ioprio::new(IoprioClass::BestEffort, 4).to_raw(), (2 << 13) | 4);
    assert_eq!(Ioprio::new(IoprioClass::RealTime, 7).to_raw(), (1 << 13) | 7);
    assert_eq!(Ioprio::new(IoprioClass::Idle, 0).to_raw(), 3 << 13);
    assert_eq!(Ioprio::new(IoprioClass::NoClass, 0).to_raw(), 0);
    assert_eq!(Ioprio::from_raw((1 << 13) | 3), Ioprio::new(IoprioClass::RealTime, 3));
    assert_eq!(Ioprio::from_raw(5 << 13), Ioprio::new(IoprioClass::NoClass, 0));
    assert_eq!(Ioprio::from_raw(-1).data, 0x1fff);
}

#[test]
fn raw_round_trip_for_every_class_and_level() {
    for class in [IoprioClass::RealTime, IoprioClass::BestEffort, IoprioClass::Idle] {
        for level in 0..=7u32 {
            let p = Ioprio::new(class, level);
            assert_eq!(Ioprio::from_raw(p.to_raw()), p);
        }
    }
}

#[test]
fn idle_string_round_trip() {
    assert_eq!(Ioprio::from_string("idle"), Ok(Ioprio::new(IoprioClass::Idle, 0)));
    assert_eq!(Ioprio::new(IoprioClass::Idle, 0).to_string(), "idle");
}

#[test]
fn from_string_values_and_errors() {
    assert_eq!(Ioprio::from_string("be/4"), Ok(Ioprio::new(IoprioClass::BestEffort, 4)));
    assert_eq!(Ioprio::from_string("rt/0"), Ok(Ioprio::new(IoprioClass::RealTime, 0)));
    assert_eq!(Ioprio::from_string("rt/7"), Ok(Ioprio::new(IoprioClass::RealTime, 7)));
    assert_eq!(Ioprio::from_string("be/+3"), Ok(Ioprio::new(IoprioClass::BestEffort, 3)));
    assert_eq!(Ioprio::from_string("be/8"), Err(IoprioError::DataOutOfRange));
    assert_eq!(Ioprio::from_string("be/x"), Err(IoprioError::InvalidData));
    assert_eq!(Ioprio::from_string("be/"), Err(IoprioError::InvalidData));
    assert_eq!(Ioprio::from_string("be/-1"), Err(IoprioError::InvalidData));
    assert_eq!(Ioprio::from_string("xx/1"), Err(IoprioError::InvalidClass));
    assert_eq!(Ioprio::from_string("idle/1"), Err(IoprioError::InvalidClass));
    assert_eq!(Ioprio::from_string("invalid"), Err(IoprioError::InvalidFormat));
    assert_eq!(Ioprio::from_string(""), Err(IoprioError::InvalidFormat));
    assert_eq!(Ioprio::from_string("be/99999999999"), Err(IoprioError::InvalidData));
}

#[test]
fn display_of_every_class() {
    assert_eq!(Ioprio::new(IoprioClass::NoClass, 3).to_string(), "none");
    assert_eq!(Ioprio::new(IoprioClass::RealTime, 0).to_string(), "rt/0");
    assert_eq!(Ioprio::new(IoprioClass::BestEffort, 12).to_string(), "be/12");
    assert_eq!(Ioprio::new(IoprioClass::Idle, 5).to_string(), "idle");
    assert_eq!(IoprioClass::BestEffort.as_str(), "be");
    assert_eq!(IoprioClass::from_u32(3), Some(IoprioClass::Idle));
    assert_eq!(IoprioClass::from_u32(4), None);
    assert_eq!(IoprioClass::RealTime.to_u32(), 1);
}

#[test]
fn fallback_when_no_class_is_set() {
    assert_eq!(get_ioprio(0, 0, 0), Ok(Ioprio::new(IoprioClass::BestEffort, 4)));
    assert_eq!(get_ioprio_string(0, 0, 0), "be/4");
}

#[test]
fn fallback_when_syscall_fails() {
    assert_eq!(get_ioprio(-1, SCHED_FIFO, -20), Ok(Ioprio::new(IoprioClass::RealTime, 0)));
    assert_eq!(get_ioprio(-1, SCHED_RR, 19), Ok(Ioprio::new(IoprioClass::RealTime, 7)));
    assert_eq!(get_ioprio(-1, SCHED_IDLE, 0), Ok(Ioprio::new(IoprioClass::Idle, 4)));
    assert_eq!(get_ioprio(-1, -1, 0), Err(IoprioError::NoScheduler));
    assert_eq!(get_ioprio_string(-1, -1, 0), "?err");
}

#[test]
fn syscall_result_with_a_class_is_used() {
    let raw = ((1i64) << 13) | 2;
    assert_eq!(ioprio_from_syscall(raw), Some(Ioprio::new(IoprioClass::RealTime, 2)));
    assert_eq!(ioprio_from_syscall(0), None);
    assert_eq!(ioprio_from_syscall(-22), None);
    assert_eq!(get_ioprio(raw, -1, 0), Ok(Ioprio::new(IoprioClass::RealTime, 2)));
    assert_eq!(get_ioprio_string((3i64) << 13, 0, 0), "idle");
}

#[test]
fn nice_levels() {
    assert_eq!(nice_to_level(-20), 0);
    assert_eq!(nice_to_level(-16), 0);
    assert_eq!(nice_to_level(-15), 1);
    assert_eq!(nice_to_level(0), 4);
    assert_eq!(nice_to_level(10), 6);
    assert_eq!(nice_to_level(19), 7);
    assert_eq!(nice_to_level(i32::MAX), 7);
    assert_eq!(nice_to_level(i32::MIN), 0);
    assert_eq!(get_ioprio_from_sched(0, 10), Ok(Ioprio::new(IoprioClass::BestEffort, 6)));
}
