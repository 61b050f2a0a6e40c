use collector::clock::{boot_to_epoch, epoch_ms_of, minute_bucket};
use collector::clone::CloneEvent;
use collector::epoll::{Attribution, AttributionError, Stats};
use collector::frame::{BpfReader, FrameReader};
use collector::futex::FutexBpfEvent;
use collector::ipc::IpcBpfEvent;
use collector::ipc::{IpcEvent, TargetFile};
use collector::ipc_stats::SocketNames;
use collector::target::Ipc;
use collector::iowait::IowaitEvent;
use collector::iowait_stats::IOWait;
use collector::procfs::{parse_proc_stat, select_process};
use collector::render::{render_dec, render_hex};
use collector::schedstat::SchedStatSample;
use collector::sink::payload;
use collector::target::Registry;

fn inode(n: u64) -> TargetFile {
    TargetFile::Inode { device: 8, inode_id: n }
}

#[test]
fn snapshots_never_lose_wait_and_instants_increase() {
    let mut a = Attribution::new();
    a.item_add(&inode(1), 100);
    a.item_remove(&inode(1), 50);
    a.epoll_wait(1_000, 400).unwrap();
    a.item_add(&inode(1), 300);
    a.epoll_wait(2_000, 250).unwrap();
    a.inode_wait(&inode(1), 3_000, 7, 2).unwrap();
    let s = a.snapshots_of(&inode(1)).unwrap();
    assert_eq!(s.len(), 3);
    for w in s.windows(2) {
        assert!(w[1].1.accumulated_wait >= w[0].1.accumulated_wait);
        assert!(w[1].0.unwrap() > w[0].0.unwrap());
    }
    assert_eq!(s[2], (Some(3_000), Stats { accumulated_wait: 57, count: 2 }));
}

#[test]
fn wait_at_an_old_instant_is_refused() {
    let mut a = Attribution::new();
    a.inode_wait(&inode(1), 5_000, 10, 1).unwrap();
    assert_eq!(a.inode_wait(&inode(1), 5_000, 10, 1), Err(AttributionError::InstantWentBack));
    a.item_add(&inode(1), 0);
    assert_eq!(a.epoll_wait(4_000, 10), Err(AttributionError::InstantWentBack));
    assert_eq!(a.snapshots_of(&inode(1)).unwrap().len(), 1);
}

#[test]
fn epoll_wait_share_is_bounded_by_total_and_contribution() {
    let mut a = Attribution::new();
    a.item_add(&inode(1), 300);
    a.epoll_wait(1_000, 1_000).unwrap();
    let s = a.snapshots_of(&inode(1)).unwrap();
    assert_eq!(s[0].1.accumulated_wait, 700);
    assert!(s[0].1.accumulated_wait <= 1_000 + 300);
    let mut b = Attribution::new();
    b.item_add(&inode(2), 2_000);
    b.epoll_wait(1_000, 1_000).unwrap();
    assert_eq!(b.snapshots_of(&inode(2)).unwrap()[0].1.accumulated_wait, 0);
}

#[test]
fn remove_below_add_takes_whole_snapshot() {
    let mut a = Attribution::new();
    a.item_add(&inode(1), 500);
    a.item_remove(&inode(1), 200);
    assert_eq!(a.snapshots_of(&inode(1)).unwrap(), vec![(None, Stats { accumulated_wait: 200, count: 0 })]);
    a.item_add(&inode(1), 0);
    a.item_remove(&inode(1), 50);
    assert_eq!(a.snapshots_of(&inode(1)).unwrap(), vec![(None, Stats { accumulated_wait: 250, count: 0 })]);
}

#[test]
fn header_written_once_at_file_start() {
    let header = b"epoch_ms,socket_wait,count\n";
    let mut file = payload(false, header, b"1,2,3\n");
    file.extend(payload(true, header, b"4,5,6\n"));
    assert_eq!(file, b"epoch_ms,socket_wait,count\n1,2,3\n4,5,6\n".to_vec());
}

#[test]
fn time_mapping_adds_boot_epoch() {
    assert_eq!(boot_to_epoch(1_600_000_000_000_000_000, 65384570945103), 1_600_065_384_570_945_103);
    assert_eq!(epoch_ms_of(65384570945103), 65384570);
    assert_eq!(minute_bucket(65384570), 65340);
    assert_eq!(minute_bucket(19447107), 19440);
}

#[test]
fn numbers_render_in_decimal_and_hex() {
    assert_eq!(render_dec(0), b"0".to_vec());
    assert_eq!(render_dec(1695277754), b"1695277754".to_vec());
    assert_eq!(render_hex(0xffff98dd8179e0c0), b"ffff98dd8179e0c0".to_vec());
}

#[test]
fn framing_skips_one_header_and_keeps_partial_records() {
    let mut r = FrameReader::new();
    assert!(r.handle_bytes(b"HEAD").is_empty());
    assert!(!r.header_read());
    assert_eq!(r.handle_bytes(b"ER\nab"), Vec::<Vec<u8>>::new());
    assert!(r.header_read());
    assert_eq!(r.handle_bytes(b"c\n\nde"), vec![b"abc".to_vec(), b"".to_vec()]);
    assert_eq!(r.handle_bytes(b""), Vec::<Vec<u8>>::new());
    assert_eq!(r.handle_bytes(b"\n"), vec![b"de".to_vec()]);
}

#[test]
fn clone_events_parse() {
    assert_eq!(
        CloneEvent::from_bytes(b"NewThread\t worker \t10\t11".to_vec()),
        CloneEvent::NewThread { comm: b"worker".to_vec(), pid: 10, tid: 11 }
    );
    assert_eq!(CloneEvent::from_bytes(b"NewProcess\tapp\t12".to_vec()), CloneEvent::NewProcess(b"app".to_vec(), 12));
    assert_eq!(CloneEvent::from_bytes(b"RemoveProcess\t12".to_vec()), CloneEvent::RemoveProcess(12));
    assert_eq!(CloneEvent::from_bytes(b"RemoveProcess\tx".to_vec()), CloneEvent::Unexpected { data: b"RemoveProcess\tx".to_vec() });
}

#[test]
fn registry_never_duplicates_and_removes_by_process() {
    let mut r = Registry::new(b"/data".to_vec());
    assert!(r.register_thread(11, 10));
    assert!(!r.register_thread(11, 10));
    r.register_process(20, &vec![21, 22, 11]);
    let mut tids = r.tids();
    tids.sort();
    assert_eq!(tids, vec![11, 21, 22]);
    r.remove_process(20);
    assert_eq!(r.tids(), Vec::<u64>::new());
}

#[test]
fn proc_stat_selection() {
    let stat = b"1234 (jbd2/sda1-8) S 2 0 0 0 -1 2129984 0 0";
    let (comm, flags) = parse_proc_stat(stat).unwrap();
    assert_eq!(comm, b"jbd2/sda1-8".to_vec());
    assert_eq!(flags, 2129984);
    assert_eq!(select_process("jbd2", "jbd2/sda1-8", flags, true), Some(true));
    assert_eq!(select_process("jbd2", "jbd2/sda1-8", flags, false), Some(false));
    assert_eq!(select_process("nginx", "jbd2/sda1-8", flags, true), Some(false));
    assert_eq!(select_process("(", "x", 0, false), None);
}

#[test]
fn schedstat_sample_row() {
    let s = SchedStatSample::parse(b"123 456 7\n", 86_400_123).unwrap();
    assert_eq!(s.to_csv_row(), b"86400123,123,456,7\n".to_vec());
    assert_eq!(SchedStatSample::csv_headers(), b"epoch_ms,runtime,rq_time,run_periods\n".to_vec());
    assert_eq!(s.day_epoch(), 86_400_000);
    assert!(SchedStatSample::parse(b"1 2", 0).is_none());
}

#[test]
fn emitted_lines_parse_back() {
    let line = format!("@wait_elapsed[{}, {}, {}]: ({}, {})", 17, 3, "0xdeadbeef", 123456789u64, 9);
    assert_eq!(
        FutexBpfEvent::from_bytes(line.into_bytes()),
        FutexBpfEvent::WaitElapsed { tid: 17, root_pid: 3, uaddr: b"0xdeadbeef".to_vec(), total_interval_wait_ns: 123456789, count_interval_wait: 9 }
    );
    let line = format!("EpollAdd\t{}\t{}\t0x{:x}\t{}\t{}\t{}\t{}\t{}", "srv", 42, 0xffff_0000_1234u64, "sockfs", 8, 99, 1000, 77);
    match IpcBpfEvent::from_bytes(line.into_bytes()) {
        IpcBpfEvent::EpollItemAdd { comm, tid, event_poll, fs, target_file, ns_since_boot, contrib_snapshot } => {
            assert_eq!(comm, b"srv".to_vec());
            assert_eq!(tid, 42);
            assert_eq!(event_poll, 0xffff_0000_1234);
            assert_eq!(fs, b"sockfs".to_vec());
            assert_eq!(target_file, TargetFile::Inode { device: 8, inode_id: 99 });
            assert_eq!(ns_since_boot, 1000);
            assert_eq!(contrib_snapshot, 77);
        }
        e => panic!("Incorrect bpf event {:?}", e),
    }
    match IpcBpfEvent::from_bytes(format!("SampleInstant\t{}", u64::MAX).into_bytes()) {
        IpcBpfEvent::SampleInstant { ns_since_boot } => assert_eq!(ns_since_boot, u64::MAX),
        e => panic!("Incorrect bpf event {:?}", e),
    }
}

#[test]
fn garbage_lines_are_unexpected() {
    for line in ["@", "@x[", "@wait_elapsed[1, 2]: (3)", "EpollAdd\tonly", "\t\t", "SampleInstant\t99999999999999999999"] {
        match IpcBpfEvent::from_bytes(line.as_bytes().to_vec()) {
            IpcBpfEvent::Unexpected { data } => assert_eq!(data, line.as_bytes().to_vec()),
            e => panic!("{:?}", e),
        }
        match FutexBpfEvent::from_bytes(line.as_bytes().to_vec()) {
            FutexBpfEvent::Unexpected { data } => assert_eq!(data, line.as_bytes().to_vec()),
            e => panic!("{:?}", e),
        }
    }
}

#[test]
fn each_registered_file_takes_its_share_of_a_wait() {
    let mut a = Attribution::new();
    a.item_add(&inode(1), 0);
    a.item_add(&inode(2), 0);
    a.epoll_wait(1_000, 10).unwrap();
    assert_eq!(a.snapshots_of(&inode(1)).unwrap()[0].1.accumulated_wait, 10);
    assert_eq!(a.snapshots_of(&inode(2)).unwrap()[0].1.accumulated_wait, 10);
}

#[test]
fn clone_events_drive_the_registry() {
    let mut r = Registry::new(b"/data".to_vec());
    assert_eq!(r.handle_clone_event(CloneEvent::NewThread { comm: b"w".to_vec(), pid: 5, tid: 6 }, &vec![]), None);
    assert_eq!(r.handle_clone_event(CloneEvent::NewProcess(b"p".to_vec(), 7), &vec![7, 8]), Some(7));
    let mut tids = r.tids();
    tids.sort();
    assert_eq!(tids, vec![6, 7, 8]);
    assert_eq!(r.handle_clone_event(CloneEvent::RemoveProcess(7), &vec![]), None);
    assert_eq!(r.tids(), vec![6]);
    assert_eq!(r.handle_clone_event(CloneEvent::Unexpected { data: b"x".to_vec() }, &vec![]), None);
    assert_eq!(r.tids(), vec![6]);
}

#[test]
fn iowait_rows_first_observation_of_a_second_stands() {
    let mut w = IOWait::new(b"/data");
    let ev = |ns: u64, n: u64| IowaitEvent::Requests { ns_since_boot: ns, part0: 1, device: 2, tid: 632, pid: 631, sector_cnt: n };
    w.sample(vec![ev(61_500_000_000, 8), ev(61_900_000_000, 5), ev(60_000_000_000, 3), ev(62_000_000_000, 0)], 0);
    let rows: Vec<(String, String)> = w
        .store()
        .into_iter()
        .map(|a| match a {
            collector::ipc_stats::SinkAction::Append(r) => (String::from_utf8(r.path).unwrap(), String::from_utf8(r.row).unwrap()),
            _ => panic!("unexpected rename"),
        })
        .collect();
    assert_eq!(
        rows,
        vec![
            ("/data/global/iowait/631/632/60/2.csv".to_string(), "60,3\n".to_string()),
            ("/data/global/iowait/631/632/60/2.csv".to_string(), "61,8\n".to_string()),
        ]
    );
    assert!(w.store().is_empty());
}

#[test]
fn wait_at_an_old_instant_is_skipped_not_fatal() {
    let wait = |t: u64, w: u64| IpcEvent::InodeWait {
        comm: b"c".to_vec(),
        tid: 5,
        fs_type: b"devpts".to_vec(),
        sb_id: 24,
        inode_id: 8,
        sample_instant_ns: t,
        total_interval_wait_ns: w,
        count_wait: Some(1),
    };
    let mut ipc = Ipc::new(5, &b"/data/thread/5/5".to_vec());
    let mut names = SocketNames::new();
    assert!(ipc.sample(vec![wait(2_000, 10), wait(1_000, 20), wait(3_000, 30)], &mut names, 0).is_ok());
    let s = ipc.pipes.attribution().snapshots_of(&TargetFile::Inode { device: 24, inode_id: 8 }).unwrap();
    assert_eq!(s, vec![(Some(2_000), Stats { accumulated_wait: 10, count: 1 }), (Some(3_000), Stats { accumulated_wait: 40, count: 1 })]);
}
