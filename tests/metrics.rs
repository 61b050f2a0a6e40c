use collector::epoll::Stats;
use collector::futex::FutexProgram;
use collector::futex_stats::{Futex, SnapshotStat, WaitStat};
use collector::ipc::{IpcProgram, TargetFile};
use collector::ipc_stats::{EventPollCollection, SinkAction, SocketNames};
use collector::sink::payload;
use collector::target::Ipc;

/// Applies sink actions to in-memory files, as the application does on disk.
fn apply(files: &mut Vec<(Vec<u8>, Vec<u8>)>, actions: Vec<SinkAction>) {
    for action in actions {
        match action {
            SinkAction::Rename { from, to } => {
                for f in files.iter_mut() {
                    if f.0 == from {
                        f.0 = to.clone();
                    }
                }
            }
            SinkAction::Append(rec) => {
                let pos = files.iter().position(|f| f.0 == rec.path);
                match pos {
                    Some(i) => {
                        let bytes = payload(true, &rec.header, &rec.row);
                        files[i].1.extend(bytes);
                    }
                    None => {
                        let bytes = payload(false, &rec.header, &rec.row);
                        files.push((rec.path.clone(), bytes));
                    }
                }
            }
        }
    }
}

fn file_text(files: &Vec<(Vec<u8>, Vec<u8>)>, path: &str) -> String {
    let f = files.iter().find(|f| f.0 == path.as_bytes()).expect("missing file");
    String::from_utf8(f.1.clone()).unwrap()
}

fn futex_program(content: &str) -> FutexProgram {
    let mut program = FutexProgram::new();
    program.poll_bytes(content.as_bytes()).unwrap();
    program
}

fn futex_for(program: &mut FutexProgram, pid: u64, tid: u64) -> Futex {
    let mut futex = Futex::new(tid, b"/data", format!("thread/{}/{}", pid, tid).as_bytes());
    futex.sample(program.take_futex_events(tid));
    futex
}

fn futex_files(futex: &mut Futex) -> Vec<(Vec<u8>, Vec<u8>)> {
    let mut files = Vec::new();
    apply(&mut files, futex.store(0).into_iter().map(SinkAction::Append).collect());
    files
}

#[test]
fn single_snapshot_wait() {
    let mut program = futex_program("HEADER \n\n=> start map statistics\n@wait_elapsed[8955, 8877, 0x7c3dd4f85fb0]: (847638877, 4)\nSampleInstant  \t65384570945103\n=> end map statistics\n");
    let mut futex = futex_for(&mut program, 8877, 8955);
    let snapshots = futex.snapshots_of(8877, &b"0x7c3dd4f85fb0".to_vec()).unwrap();
    assert_eq!(snapshots[0], (65384570945103, SnapshotStat::Wait(WaitStat { accumulated_wait: 847638877, count: 4 })));
    let files = futex_files(&mut futex);
    assert_eq!(
        file_text(&files, "/data/thread/8877/8955/futex/wait/65340/8877-0x7c3dd4f85fb0.csv"),
        "epoch_ms,futex_wait_ns,futex_count\n65384570,847638877,4\n"
    );
}

#[test]
fn single_snapshot_wake() {
    let mut program = futex_program("HEADER \n\n=> start map statistics\n@wake[8986, 8877, 0x7c3cfc00560c]: 1\nSampleInstant  \t65384570945103\n=> end map statistics\n");
    let mut futex = futex_for(&mut program, 8877, 8986);
    let snapshots = futex.snapshots_of(8877, &b"0x7c3cfc00560c".to_vec()).unwrap();
    assert_eq!(snapshots[0], (65384570945103, SnapshotStat::Wake { count: 1 }));
    let files = futex_files(&mut futex);
    assert_eq!(
        file_text(&files, "/data/thread/8877/8986/futex/wake/65340/8877-0x7c3cfc00560c.csv"),
        "epoch_ms,futex_count\n65384570,1\n"
    );
}

#[test]
fn double_snapshot_wait() {
    let mut program = futex_program("HEADER \n\n=> start map statistics\n@wait_elapsed[8955, 8877, 0x7c3dd4f85fb0]: (847638877, 4)\nSampleInstant  \t65384570945103\n=> end map statistics\n\n=> start map statistics\n@wait_elapsed[8955, 8877, 0x7c3dd4f85fb0]: (847638877, 4)\nSampleInstant  \t65385570945103\n=> end map statistics\n");
    let mut futex = futex_for(&mut program, 8877, 8955);
    let snapshots = futex.snapshots_of(8877, &b"0x7c3dd4f85fb0".to_vec()).unwrap();
    assert_eq!(snapshots[0], (65384570945103, SnapshotStat::Wait(WaitStat { accumulated_wait: 847638877, count: 4 })));
    assert_eq!(snapshots[1], (65385570945103, SnapshotStat::Wait(WaitStat { accumulated_wait: 847638877 * 2, count: 4 })));
    let files = futex_files(&mut futex);
    assert_eq!(
        file_text(&files, "/data/thread/8877/8955/futex/wait/65340/8877-0x7c3dd4f85fb0.csv"),
        "epoch_ms,futex_wait_ns,futex_count\n65384570,847638877,4\n65385570,1695277754,4\n"
    );
}

#[test]
fn double_snapshot_wake() {
    let mut program = futex_program("HEADER \n\n=> start map statistics\n@wake[8986, 8877, 0x7c3cfc00560c]: 1\nSampleInstant  \t65384570945103\n=> end map statistics\n\n=> start map statistics\n@wake[8986, 8877, 0x7c3cfc00560c]: 1\nSampleInstant  \t65385570945103\n=> end map statistics\n");
    let mut futex = futex_for(&mut program, 8877, 8986);
    let snapshots = futex.snapshots_of(8877, &b"0x7c3cfc00560c".to_vec()).unwrap();
    assert_eq!(snapshots[0], (65384570945103, SnapshotStat::Wake { count: 1 }));
    assert_eq!(snapshots[1], (65385570945103, SnapshotStat::Wake { count: 1 }));
    let files = futex_files(&mut futex);
    assert_eq!(
        file_text(&files, "/data/thread/8877/8986/futex/wake/65340/8877-0x7c3cfc00560c.csv"),
        "epoch_ms,futex_count\n65384570,1\n65385570,1\n"
    );
}

#[test]
fn single_wait_and_wake() {
    let mut program = futex_program("HEADER \n\n=> start map statistics\n@wake[8955, 8877, 0x7c3cfc00560c]: 1\n@wait_elapsed[8955, 8877, 0x7c3cfc00560c]: (847638877, 4)\nSampleInstant  \t65384570945103\n=> end map statistics\n");
    let mut futex = futex_for(&mut program, 8877, 8955);
    let snapshots = futex.snapshots_of(8877, &b"0x7c3cfc00560c".to_vec()).unwrap();
    assert!(snapshots.contains(&(65384570945103, SnapshotStat::Wake { count: 1 })));
    assert!(snapshots.contains(&(65384570945103, SnapshotStat::Wait(WaitStat { accumulated_wait: 847638877, count: 4 }))));
    let files = futex_files(&mut futex);
    assert_eq!(
        file_text(&files, "/data/thread/8877/8955/futex/wake/65340/8877-0x7c3cfc00560c.csv"),
        "epoch_ms,futex_count\n65384570,1\n"
    );
    assert_eq!(
        file_text(&files, "/data/thread/8877/8955/futex/wait/65340/8877-0x7c3cfc00560c.csv"),
        "epoch_ms,futex_wait_ns,futex_count\n65384570,847638877,4\n"
    );
}

fn ipc_program(content: &str) -> IpcProgram {
    let mut program = IpcProgram::new();
    program.poll_bytes(content.as_bytes()).unwrap();
    program
}

fn thread_ipc(program: &mut IpcProgram, names: &mut SocketNames, tid: u64) -> Ipc {
    let mut ipc = Ipc::new(tid, &format!("/data/thread/{}/{}", tid, tid).into_bytes());
    ipc.sample(program.take_tid_events(tid), names, 0).unwrap();
    ipc
}

fn epoll_collection(program: &mut IpcProgram, names: &mut SocketNames) -> EventPollCollection {
    let mut polls = EventPollCollection::new(b"/data");
    for e in program.take_global_events() {
        polls.process_event(e, names, 0).unwrap();
    }
    polls
}

fn poll_of(polls: &EventPollCollection, address: u64) -> &collector::ipc_stats::EventPoll {
    polls.event_poll_map.iter().find(|p| p.address == address).expect("missing epoll instance")
}

const INODE_SAMPLES: &str = "HEADER\n\nNewSocketMap\tsockfs\t8\t90098\tAF_INET\t127.0.0.1\t7878\t127.0.0.1\t50058\nAcceptEnd\texample-applica\t24239\tsockfs\t8\t90098\tAF_INET\t127.0.0.1\t7878\t127.0.0.1\t50058\t19446862145009\n\n=> start map statistics\n@inode_map[example-applica, 24239, sockfs, 8, 90098]: (2848, 1)\n\nSampleInstant\t19447107025962\n=> end map statistics\n\n=> start map statistics\n@inode_map[example-applica, 24239, sockfs, 8, 90098]: (43106, 1)\n\nSampleInstant\t19448107034740\n=> end map statistics\n";

#[test]
fn ipc_socket_two_consecutive_inode_samples() {
    let mut names = SocketNames::new();
    let mut program = ipc_program(INODE_SAMPLES);
    let ipc = thread_ipc(&mut program, &mut names, 24239);
    let snapshots = ipc.sockets.attribution().snapshots_of(&TargetFile::Inode { device: 8, inode_id: 90098 }).unwrap();
    assert_eq!(snapshots[0], (Some(19447107025962), Stats { accumulated_wait: 2848, count: 1 }));
    assert_eq!(snapshots[1], (Some(19448107034740), Stats { accumulated_wait: 2848 + 43106, count: 1 }));

    let mut program = ipc_program(&INODE_SAMPLES.replace("sockfs, 8", "devpts, 8").replace("\tsockfs\t8\t90098\tAF_INET\t127.0.0.1\t7878\t127.0.0.1\t50058\t", "\tdevpts\t8\t90098\tAF_INET\t127.0.0.1\t7878\t127.0.0.1\t50058\t"));
    let ipc = thread_ipc(&mut program, &mut names, 24239);
    let snapshots = ipc.pipes.attribution().snapshots_of(&TargetFile::Inode { device: 8, inode_id: 90098 }).unwrap();
    assert_eq!(snapshots[0], (Some(19447107025962), Stats { accumulated_wait: 2848, count: 1 }));
    assert_eq!(snapshots[1], (Some(19448107034740), Stats { accumulated_wait: 2848 + 43106, count: 1 }));
}

#[test]
fn ipc_store_snapshots() {
    let mut names = SocketNames::new();
    let mut program = ipc_program(INODE_SAMPLES);
    let mut ipc = thread_ipc(&mut program, &mut names, 24239);
    let mut files = Vec::new();
    apply(&mut files, ipc.store(&names));
    assert!(ipc.sockets.attribution().snapshots_of(&TargetFile::Inode { device: 8, inode_id: 90098 }).unwrap().is_empty());
    assert_eq!(
        file_text(&files, "/data/thread/24239/24239/ipc/sockets/19440/ipv4_127.0.0.1:7878_127.0.0.1:50058.csv"),
        "epoch_ms,socket_wait,count\n19447107,2848,1\n19448107,45954,1\n"
    );

    let mut names = SocketNames::new();
    let mut program = ipc_program(&INODE_SAMPLES.replace("sockfs, 8", "devpts, 8"));
    let mut ipc = thread_ipc(&mut program, &mut names, 24239);
    let mut files = Vec::new();
    apply(&mut files, ipc.store(&names));
    assert_eq!(
        file_text(&files, "/data/thread/24239/24239/ipc/streams/19440/8_90098.csv"),
        "epoch_ms,stream_wait,count\n19447107,2848,1\n19448107,45954,1\n"
    );
}

const ADD_REMOVE: &str = "HEADER\n\nNewSocketMap\tsockfs\t8\t80672\t127.0.0.1\t50046\t127.0.0.1\t7878\nEpollAdd\tepoll_server\t24354\t0xffff98dd8179e0c0\tsockfs\t8\t80672\t19446544512965\t437501291\nEpollRemove\tepoll_server\t24354\t0xffff98dd8179e0c0\tsockfs\t8\t80672\t19446834063942\t1016301358\n";
const FRAME_ONE: &str = "\n=> start map statistics\n@epoll_map[0xffff98dd8179e0c0]: 289679399\nSampleInstant\t19447107025962\n=> end map statistics\n";
const READD: &str = "EpollAdd\tepoll_server\t24354\t0xffff98dd8179e0c0\tsockfs\t8\t80672\t19446544512965\t200000000\n";
const SECOND_ADD_REMOVE: &str = "\nEpollAdd\tepoll_server\t24354\t0xffff98dd8179e0c0\tsockfs\t8\t80672\t19446544512965\t437501291\nEpollRemove\tepoll_server\t24354\t0xffff98dd8179e0c0\tsockfs\t8\t80672\t19446834063942\t1016301358\n";
const FRAME_TWO: &str = "\n=> start map statistics\n@epoll_map[0xffff98dd8179e0c0]: 914973709\nSampleInstant\t19448107034740\n=> end map statistics\n";

fn epoll_snapshots(content: &str, sockets: bool) -> Vec<(Option<u128>, Stats)> {
    let content = if sockets { content.to_string() } else { content.replace("sockfs\t8\t80672", "devpts\t8\t80672") };
    let mut names = SocketNames::new();
    let mut program = ipc_program(&content);
    let polls = epoll_collection(&mut program, &mut names);
    let poll = poll_of(&polls, 0xffff98dd8179e0c0);
    let attribution = if sockets { poll.sockets.attribution() } else { poll.pipes.attribution() };
    attribution.snapshots_of(&TargetFile::Inode { device: 8, inode_id: 80672 }).unwrap()
}

#[test]
fn socket_empty_snapshot() {
    let snapshots = epoll_snapshots(ADD_REMOVE, true);
    assert_eq!(snapshots.len(), 1);
    assert_eq!(snapshots[0], (None, Stats { accumulated_wait: 578800067, count: 0 }));
}

#[test]
fn socket_filled_snapshot() {
    let snapshots = epoll_snapshots(&format!("{}{}", ADD_REMOVE, FRAME_ONE), true);
    assert_eq!(snapshots.len(), 1);
    assert_eq!(snapshots[0], (Some(19447107025962), Stats { accumulated_wait: 578800067, count: 0 }));
}

#[test]
fn remove_and_add_active_socket() {
    let snapshots = epoll_snapshots(&format!("{}{}{}", ADD_REMOVE, READD, FRAME_ONE), true);
    assert_eq!(snapshots.len(), 1);
    assert_eq!(
        snapshots[0],
        (Some(19447107025962), Stats { accumulated_wait: (1016301358 - 437501291) + (289679399 - 200000000), count: 0 })
    );
}

#[test]
fn ipc_two_consecutive_bpf_samples_last_pending() {
    for sockets in [true, false] {
        let snapshots = epoll_snapshots(&format!("{}{}{}{}", ADD_REMOVE, READD, FRAME_ONE, SECOND_ADD_REMOVE), sockets);
        assert_eq!(snapshots.len(), 2);
        assert_eq!(
            snapshots[0],
            (Some(19447107025962), Stats { accumulated_wait: (1016301358 - 437501291) + (289679399 - 200000000), count: 0 })
        );
        assert_eq!(
            snapshots[1],
            (None, Stats { accumulated_wait: (1016301358 - 437501291) + (289679399 - 200000000) + (1016301358 - 437501291), count: 0 })
        );
    }
}

#[test]
fn ipc_two_consecutive_bpf_samples() {
    for sockets in [true, false] {
        let snapshots = epoll_snapshots(&format!("{}{}{}{}{}", ADD_REMOVE, READD, FRAME_ONE, SECOND_ADD_REMOVE, FRAME_TWO), sockets);
        assert_eq!(snapshots.len(), 2);
        assert_eq!(
            snapshots[0],
            (Some(19447107025962), Stats { accumulated_wait: (1016301358 - 437501291) + (289679399 - 200000000), count: 0 })
        );
        assert_eq!(
            snapshots[1],
            (Some(19448107034740), Stats { accumulated_wait: (1016301358 - 437501291) + (289679399 - 200000000) + (1016301358 - 437501291), count: 0 })
        );
    }
}

#[test]
fn ipc_two_consecutive_bpf_samples_store() {
    let content = "HEADER\n\nNewSocketMap\tsockfs\t8\t80672\tAF_INET\t127.0.0.1\t50046\t127.0.0.1\t7878\nConnectEnd\tepoll_server\t24354\tsockfs\t8\t80672\tAF_INET\t127.0.0.1\t50046\t127.0.0.1\t7878\t111111111\t1034\nEpollAdd\tepoll_server\t24354\t0xffff98dd8179e0c0\tsockfs\t8\t80672\t19446544512965\t437501291\nEpollRemove\tepoll_server\t24354\t0xffff98dd8179e0c0\tsockfs\t8\t80672\t19446834063942\t1016301358\n".to_string()
        + READD + FRAME_ONE + SECOND_ADD_REMOVE + FRAME_TWO;
    let mut names = SocketNames::new();
    let mut program = ipc_program(&content);
    let mut polls = epoll_collection(&mut program, &mut names);
    let mut files = Vec::new();
    apply(&mut files, polls.store(&names));
    let poll = poll_of(&polls, 0xffff98dd8179e0c0);
    assert!(poll.sockets.attribution().snapshots_of(&TargetFile::Inode { device: 8, inode_id: 80672 }).unwrap().is_empty());
    assert_eq!(
        file_text(&files, "/data/global/epoll/ffff98dd8179e0c0/sockets/19440/ipv4_127.0.0.1:50046_127.0.0.1:7878.csv"),
        "epoch_ms,socket_wait,count\n19447107,668479466,0\n19448107,1247279533,0\n"
    );

    let content = content.replace("sockfs\t8\t80672\t1", "devpts\t8\t80672\t1");
    let mut names = SocketNames::new();
    let mut program = ipc_program(&content);
    let mut polls = epoll_collection(&mut program, &mut names);
    let mut files = Vec::new();
    apply(&mut files, polls.store(&names));
    assert_eq!(
        file_text(&files, "/data/global/epoll/ffff98dd8179e0c0/streams/19440/8_80672.csv"),
        "epoch_ms,stream_wait,count\n19447107,668479466,0\n19448107,1247279533,0\n"
    );
}

#[test]
fn empty_snapshot() {
    let snapshots = epoll_snapshots(ADD_REMOVE, false);
    assert_eq!(snapshots.len(), 1);
    assert_eq!(snapshots[0], (None, Stats { accumulated_wait: 578800067, count: 0 }));
}

#[test]
fn filled_snapshot() {
    let snapshots = epoll_snapshots(&format!("{}{}", ADD_REMOVE, FRAME_ONE), false);
    assert_eq!(snapshots.len(), 1);
    assert_eq!(snapshots[0], (Some(19447107025962), Stats { accumulated_wait: 578800067, count: 0 }));
}

#[test]
fn remove_and_add_active() {
    let snapshots = epoll_snapshots(&format!("{}{}{}", ADD_REMOVE, READD, FRAME_ONE), false);
    assert_eq!(snapshots.len(), 1);
    assert_eq!(
        snapshots[0],
        (Some(19447107025962), Stats { accumulated_wait: (1016301358 - 437501291) + (289679399 - 200000000), count: 0 })
    );
}

#[test]
fn epoll_inode() {
    let content = "HEADER\n\nNewSocketMap\tsockfs\t8\t2519815\tAF_INET\t127.0.0.1\t60958\t127.0.0.1\t7878\nEpollAdd\tepoll_server\t357171\t0xffff96892f1e7b00\tsockfs\t8\t2519815\t521457873233008\t861999000\n\n=> start map statistics\n@inode_map[epoll_server, 357171,                           epoll, 0, -115959031497984]: (862007004, 12)\n@inode_pending[epoll_server, 357171,                           epoll, 0, -115959031497984]: 521457873417016\n@epoll_map[0xffff96892f1e7b00]: 861999871\n@epoll_pending[0xffff96892f1e7b00]: 521457873417016\nSampleInstant\t521457925386742\n=> end map statistics\n";
    let mut names = SocketNames::new();
    let mut program = ipc_program(content);
    let mut polls = epoll_collection(&mut program, &mut names);
    let mut files = Vec::new();
    apply(&mut files, polls.store(&names));
    assert_eq!(
        file_text(&files, "/data/global/epoll/ffff96892f1e7b00/sockets/521400/ipv4_127.0.0.1:60958_127.0.0.1:7878.csv"),
        "epoch_ms,socket_wait,count\n521457925,51970597,0\n"
    );
    let mut ipc = thread_ipc(&mut program, &mut names, 357171);
    apply(&mut files, ipc.store(&names));
    assert_eq!(
        file_text(&files, "/data/thread/357171/357171/ipc/streams/521400/epoll_ffff96892f1e7b00.csv"),
        "epoch_ms,stream_wait,count\n521457925,913976730,12\n"
    );
}

#[test]
fn epoll_inode_ipv6() {
    let content = "HEADER\n\nNewSocketMap\tsockfs\t8\t1031455\tAF_INET6\t::1\t3001\t::1\t55774\nAcceptEnd\tepoll_server\t67967\tsockfs\t8\t1031455\tAF_INET6\t::1\t3001\t::1\t55774\t330488529582598\nEpollAdd\tepoll_server\t67967\t0xffff9d5c4f7ca840\tsockfs\t8\t1031455\t330488529608026\t248242602\n\n=> start map statistics\n@inode_map[epoll_server, 67967, sockfs, 8, 1031455]: (30594, 5)\n@inode_pending[epoll_server, 67967,                           epoll, 0, -108455180588992]: 330489199386315\n@epoll_map[0xffff9d5c4f7ca840]: 586287502\n@epoll_pending[0xffff9d5c4f7ca840]: 330489199386315\nSampleInstant\t330489281294037\n=> end map statistics\n";
    let mut names = SocketNames::new();
    let mut program = ipc_program(content);
    let mut polls = epoll_collection(&mut program, &mut names);
    let mut files = Vec::new();
    apply(&mut files, polls.store(&names));
    assert_eq!(
        file_text(&files, "/data/global/epoll/ffff9d5c4f7ca840/sockets/330480/ipv6_[0:0:0:0:0:0:0:1]:3001_[0:0:0:0:0:0:0:1]:55774.csv"),
        "epoch_ms,socket_wait,count\n330489281,419952622,0\n"
    );
    let mut ipc = thread_ipc(&mut program, &mut names, 67967);
    apply(&mut files, ipc.store(&names));
    assert_eq!(
        file_text(&files, "/data/thread/67967/67967/ipc/sockets/330480/ipv6_[0:0:0:0:0:0:0:1]:3001_[0:0:0:0:0:0:0:1]:55774.csv"),
        "epoch_ms,socket_wait,count\n330489281,30594,5\n"
    );
    assert_eq!(
        file_text(&files, "/data/thread/67967/67967/ipc/streams/330480/epoll_ffff9d5c4f7ca840.csv"),
        "epoch_ms,stream_wait,count\n330489281,81907722,0\n"
    );
}

#[test]
fn epoll_inode_unix() {
    let content = "HEADER\n\nNewSocketMap\tsockfs\t8\t1051498\tAF_UNIX\t0xffff9d5c5c4d3300\t0xffff9d5c5c4d1100\n\n=> start map statistics\n@inode_pending[unix-accept-con, 143866, sockfs, 8, 1051498]: 332665199498858\nSampleInstant\t332665569307417\n=> end map statistics\n\nNewProcess\tunix-accept-con\t143868\nNewSocketMap\tsockfs\t8\t1057237\tAF_UNIX\t0xffff9d5c5c4d1100\t0xffff9d5c5c4d3300\n\n=> start map statistics\n@inode_map[unix-accept-con, 143866, devpts, 24, 8]: (8184, 1)\n@inode_map[unix-accept-con, 143866, sockfs, 8, 1051498]: (630338761, 1)\n@inode_map[unix-accept-con, 143868, sockfs, 8, 1057237]: (5879, 1)\n@inode_pending[unix-accept-con, 143866, sockfs, 8, 1051498]: 332666199674298\nSampleInstant\t332666569304709\n=> end map statistics\n";
    let mut names = SocketNames::new();
    let mut program = ipc_program(content);
    let mut polls = epoll_collection(&mut program, &mut names);
    let mut files = Vec::new();
    apply(&mut files, polls.store(&names));
    let mut ipc = thread_ipc(&mut program, &mut names, 143866);
    apply(&mut files, ipc.store(&names));
    assert_eq!(
        file_text(&files, "/data/thread/143866/143866/ipc/sockets/332640/unix_0xffff9d5c5c4d3300_0xffff9d5c5c4d1100.csv"),
        "epoch_ms,socket_wait,count\n332665569,369808559,0\n332666569,1369777731,1\n"
    );
    let mut ipc = thread_ipc(&mut program, &mut names, 143868);
    apply(&mut files, ipc.store(&names));
    assert_eq!(
        file_text(&files, "/data/thread/143868/143868/ipc/sockets/332640/unix_0xffff9d5c5c4d1100_0xffff9d5c5c4d3300.csv"),
        "epoch_ms,socket_wait,count\n332666569,5879,1\n"
    );
}
