use collector::futex::{FutexBpfEvent, FutexEvent, FutexProgram};

fn parse(line: &str) -> FutexBpfEvent {
    FutexBpfEvent::from_bytes(Vec::from(line.as_bytes()))
}

fn program_with(content: &str) -> FutexProgram {
    let mut program = FutexProgram::new();
    program.poll_bytes(content.as_bytes()).unwrap();
    program
}

#[test]
fn trace_map_stats_start() {
    assert_eq!(parse("=> start map statistics"), FutexBpfEvent::MapStatsStart);
}

#[test]
fn trace_map_stats_end() {
    assert_eq!(parse("=> end map statistics"), FutexBpfEvent::MapStatsEnd);
}

#[test]
fn trace_sample_instant() {
    assert_eq!(
        parse("SampleInstant  \t65383570923944"),
        FutexBpfEvent::SampleInstant { ns_since_boot: 65383570923944 }
    );
}

#[test]
fn map_wait_elapsed() {
    let event = parse("@wait_elapsed[8955, 8877, 0x7c3dd4f85fb0]: (847638877, 4)");
    if let FutexBpfEvent::WaitElapsed { tid, root_pid, uaddr, total_interval_wait_ns, count_interval_wait } = event {
        assert_eq!(tid, 8955);
        assert_eq!(root_pid, 8877);
        assert_eq!(uaddr, b"0x7c3dd4f85fb0".to_vec());
        assert_eq!(total_interval_wait_ns, 847638877);
        assert_eq!(count_interval_wait, 4);
    } else {
        panic!("Incorrect FutexBpfEvent");
    }
}

#[test]
fn map_wait_pending() {
    let event = parse("@wait_pending[8955]: (65384418811815, 8877, 0x7c3dd4f85fb0)");
    if let FutexBpfEvent::WaitPending { tid, root_pid, uaddr, ns_since_boot } = event {
        assert_eq!(tid, 8955);
        assert_eq!(root_pid, 8877);
        assert_eq!(uaddr, b"0x7c3dd4f85fb0".to_vec());
        assert_eq!(ns_since_boot, 65384418811815);
    } else {
        panic!("Incorrect FutexBpfEvent");
    }
}

#[test]
fn map_wake() {
    let event = parse("@wake[8986, 8877, 0x7c3cfc00560c]: 1");
    if let FutexBpfEvent::Wake { tid, root_pid, uaddr, count } = event {
        assert_eq!(tid, 8986);
        assert_eq!(root_pid, 8877);
        assert_eq!(uaddr, b"0x7c3cfc00560c".to_vec());
        assert_eq!(count, 1);
    } else {
        panic!("Incorrect FutexBpfEvent");
    }
}

#[test]
fn single_wait_elapsed() {
    let mut program = program_with(
        "HEADER \n\n=> start map statistics\n@wait_elapsed[8955, 8877, 0x7c3dd4f85fb0]: (847638877, 4)\nSampleInstant  \t65384570945103\n=> end map statistics\n",
    );
    let event = program.take_futex_events(8955).into_iter().next().unwrap();
    assert_eq!(
        event,
        FutexEvent::Wait {
            tid: 8955,
            root_pid: 8877,
            uaddr: b"0x7c3dd4f85fb0".to_vec(),
            sample_instant_ns: 65384570945103,
            total_interval_wait_ns: 847638877,
            count: 4
        }
    );
}

#[test]
fn single_wait_elapsed_and_pending() {
    let mut program = program_with(
        "HEADER \n\n=> start map statistics\n@wait_elapsed[8955, 8877, 0x7c3dd4f85fb0]: (847638877, 4)\n@wait_pending[8955]: (65384418811815, 8877, 0x7c3dd4f85fb0)\nSampleInstant  \t65384570945103\n=> end map statistics\n",
    );
    let event = program.take_futex_events(8955).into_iter().next().unwrap();
    assert_eq!(
        event,
        FutexEvent::Wait {
            tid: 8955,
            root_pid: 8877,
            uaddr: b"0x7c3dd4f85fb0".to_vec(),
            sample_instant_ns: 65384570945103,
            total_interval_wait_ns: 847638877 + (65384570945103 - 65384418811815),
            count: 4
        }
    );
}

#[test]
fn single_pending() {
    let mut program = program_with(
        "HEADER \n\n=> start map statistics\n@wait_pending[8955]: (65384418811815, 8877, 0x7c3dd4f85fb0)\nSampleInstant  \t65384570945103\n=> end map statistics\n",
    );
    let event = program.take_futex_events(8955).into_iter().next().unwrap();
    assert_eq!(
        event,
        FutexEvent::Wait {
            tid: 8955,
            root_pid: 8877,
            uaddr: b"0x7c3dd4f85fb0".to_vec(),
            sample_instant_ns: 65384570945103,
            total_interval_wait_ns: 65384570945103 - 65384418811815,
            count: 0
        }
    );
}

#[test]
fn single_wake() {
    let mut program = program_with(
        "HEADER \n\n=> start map statistics\n@wake[8986, 8877, 0x7c3cfc00560c]: 1\nSampleInstant  \t65384570945103\n=> end map statistics\n",
    );
    let event = program.take_futex_events(8986).into_iter().next().unwrap();
    assert_eq!(
        event,
        FutexEvent::Wake {
            tid: 8986,
            root_pid: 8877,
            uaddr: b"0x7c3cfc00560c".to_vec(),
            sample_instant_ns: 65384570945103,
            count: 1
        }
    );
}

#[test]
fn two_consecutive_map_stat_closures() {
    let mut program = program_with(
        "HEADER \n\n=> start map statistics\n@wait_elapsed[8955, 8877, 0x7c3dd4f85fb0]: (847638877, 4)\n@wait_pending[8955]: (65384418811815, 8877, 0x7c3dd4f85fb0)\nSampleInstant  \t65384570945103\n=> end map statistics\n\n=> start map statistics\n@wait_elapsed[8955, 8877, 0x7c3dd4f85fb0]: (748486373, 4)\n@wait_pending[8955]: (65385319694788, 8877, 0x7c3dd4f85fb0)\nSampleInstant  \t65385570860594\n=> end map statistics\n",
    );
    let mut events = program.take_futex_events(8955).into_iter();
    assert_eq!(
        events.next().unwrap(),
        FutexEvent::Wait {
            tid: 8955,
            root_pid: 8877,
            uaddr: b"0x7c3dd4f85fb0".to_vec(),
            sample_instant_ns: 65384570945103,
            total_interval_wait_ns: 847638877 + (65384570945103 - 65384418811815),
            count: 4
        }
    );
    assert_eq!(
        events.next().unwrap(),
        FutexEvent::Wait {
            tid: 8955,
            root_pid: 8877,
            uaddr: b"0x7c3dd4f85fb0".to_vec(),
            sample_instant_ns: 65385570860594,
            total_interval_wait_ns: 748486373 + (65385570860594 - 65385319694788),
            count: 4
        }
    );
}

#[test]
fn frame_totals_of_two_frames() {
    let mut program = program_with(
        "HEADER \n\n=> start map statistics\n@wait_elapsed[8955, 8877, 0x7c3dd4f85fb0]: (847638877, 4)\n@wait_pending[8955]: (65384418811815, 8877, 0x7c3dd4f85fb0)\nSampleInstant  \t65384570945103\n=> end map statistics\n\n=> start map statistics\n@wait_elapsed[8955, 8877, 0x7c3dd4f85fb0]: (748486373, 4)\n@wait_pending[8955]: (65385319694788, 8877, 0x7c3dd4f85fb0)\nSampleInstant  \t65385570860594\n=> end map statistics\n",
    );
    let totals: Vec<u64> = program
        .take_futex_events(8955)
        .into_iter()
        .map(|e| match e {
            FutexEvent::Wait { total_interval_wait_ns, .. } => total_interval_wait_ns,
            FutexEvent::Wake { .. } => 0,
        })
        .collect();
    assert_eq!(totals, vec![999772165, 999652179]);
}

#[test]
fn malformed_lines_are_unexpected() {
    assert_eq!(parse(""), FutexBpfEvent::NoOp);
    assert_eq!(
        parse("@wait_elapsed[abc]: x"),
        FutexBpfEvent::Unexpected { data: b"@wait_elapsed[abc]: x".to_vec() }
    );
    assert_eq!(parse("   "), FutexBpfEvent::Unexpected { data: b"   ".to_vec() });
    assert_eq!(parse("=> middle"), FutexBpfEvent::Unexpected { data: b"=> middle".to_vec() });
}

#[test]
fn end_without_start_is_an_error() {
    let mut program = FutexProgram::new();
    assert!(program.poll_bytes(b"HEADER\n=> end map statistics\n").is_err());
}

#[test]
fn pending_before_previous_frame_takes_whole_interval() {
    let mut program = program_with(
        "HEADER\n=> start map statistics\nSampleInstant\t1000\n=> end map statistics\n=> start map statistics\n@wait_pending[7]: (500, 1, 0x10)\nSampleInstant\t3000\n=> end map statistics\n",
    );
    let events = program.take_futex_events(7);
    assert_eq!(
        events,
        vec![FutexEvent::Wait {
            tid: 7,
            root_pid: 1,
            uaddr: b"0x10".to_vec(),
            sample_instant_ns: 3000,
            total_interval_wait_ns: 2000,
            count: 0
        }]
    );
}
