use collector::iowait::{IOWaitProgram, IowaitBpfEvent, IowaitEvent};

fn parse(line: &str) -> IowaitBpfEvent {
    IowaitBpfEvent::from_bytes(Vec::from(line.as_bytes()))
}

#[test]
fn no_op() {
    assert_eq!(parse(""), IowaitBpfEvent::NoOp {});
}

#[test]
fn map_completed() {
    let event = parse("@completed[271581184, 271581187, 632, 631]: 22616");
    if let IowaitBpfEvent::MapCompleted { part0, device, tid, pid, sector_cnt } = event {
        assert_eq!(part0, 271581184);
        assert_eq!(device, 271581187);
        assert_eq!(tid, 632);
        assert_eq!(pid, 631);
        assert_eq!(sector_cnt, 22616);
    } else {
        panic!("Incorrect bpf event");
    }
}

#[test]
fn map_pending() {
    let event = parse("@pending[271581184, 271581187, 1649015544, 1, 1, 0]: (1421282887324, 632, 631, 8)");
    if let IowaitBpfEvent::MapPending { ns_since_boot, part0, device, sector, sector_cnt, is_write, op, status, tid, pid } = event {
        assert_eq!(part0, 271581184);
        assert_eq!(device, 271581187);
        assert_eq!(sector, 1649015544);
        assert_eq!(is_write, true);
        assert_eq!(op, 1);
        assert_eq!(status, 0);
        assert_eq!(ns_since_boot, 1421282887324);
        assert_eq!(tid, 632);
        assert_eq!(pid, 631);
        assert_eq!(sector_cnt, 8);
    } else {
        panic!("Incorrect bpf event");
    }
}

#[test]
fn iowait_map_stats_start() {
    assert_eq!(parse("=> start map statistics"), IowaitBpfEvent::MapStatsStart {});
}

#[test]
fn iowait_map_stats_end() {
    assert_eq!(parse("=> end map statistics"), IowaitBpfEvent::MapStatsEnd {});
}

#[test]
fn sample_instant() {
    assert_eq!(parse("SampleInstant   1421348499285"), IowaitBpfEvent::SampleInstant { ns_since_boot: 1421348499285 });
}

#[test]
fn frame_sums_sectors_per_key() {
    let mut program = IOWaitProgram::new();
    program
        .poll_bytes(b"HEADER\n=> start map statistics\n@completed[1, 2, 632, 631]: 10\n@pending[1, 2, 5, 0, 1, 0]: (100, 632, 631, 8)\nSampleInstant 5000\n=> end map statistics\n")
        .unwrap();
    assert_eq!(
        program.take_events(),
        vec![IowaitEvent::Requests { ns_since_boot: 5000, part0: 1, device: 2, tid: 632, pid: 631, sector_cnt: 18 }]
    );
}

#[test]
fn end_without_instant_is_an_error() {
    let mut program = IOWaitProgram::new();
    assert!(program.poll_bytes(b"HEADER\n=> end map statistics\n").is_err());
}
