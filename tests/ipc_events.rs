use collector::ipc::{Connection, IpcBpfEvent, IpcProgram, TargetFile};

fn parse(line: &str) -> IpcBpfEvent {
    IpcBpfEvent::from_bytes(Vec::from(line.as_bytes()))
}

#[test]
fn inode_map() {
    let event = parse("@inode_map[tokio-runtime-w, 1257489, devpts, 24, 8]: (25617349, 1)");
    if let IpcBpfEvent::InodeMapCached { comm, tid, fs_type, sb_id, inode_id, count, total_ns } = event {
        assert_eq!(comm, b"tokio-runtime-w".to_vec());
        assert_eq!(tid, 1257489);
        assert_eq!(fs_type, b"devpts".to_vec());
        assert_eq!(sb_id, 24);
        assert_eq!(inode_id, 8);
        assert_eq!(count, 1);
        assert_eq!(total_ns, 25617349);
    } else {
        panic!("Incorrect bpf event");
    }
}

#[test]
fn inode_pending() {
    let event = parse("@inode_pending[tokio-runtime-w, 1257489, devpts, 24, 8]: 1234");
    if let IpcBpfEvent::InodeMapPending { comm, tid, fs_type, sb_id, inode_id, ns_since_boot } = event {
        assert_eq!(comm, b"tokio-runtime-w".to_vec());
        assert_eq!(tid, 1257489);
        assert_eq!(fs_type, b"devpts".to_vec());
        assert_eq!(sb_id, 24);
        assert_eq!(inode_id, 8);
        assert_eq!(ns_since_boot, 1234);
    } else {
        panic!("Incorrect bpf event");
    }
}

#[test]
fn epoll_map() {
    let event = parse("@epoll_map[0xffff8b2c5b49c000]: 25721222");
    if let IpcBpfEvent::EpollMapCached { event_poll, total_ns } = event {
        assert_eq!(&format!("{:x}", event_poll), "ffff8b2c5b49c000");
        assert_eq!(total_ns, 25721222);
    } else {
        panic!("Incorrect bpf event");
    }
}

#[test]
fn epoll_pending() {
    let event = parse("@epoll_pending[0xffff8b2c5b49c000]: 25721222");
    if let IpcBpfEvent::EpollMapPending { event_poll, ns_since_boot } = event {
        assert_eq!(&format!("{:x}", event_poll), "ffff8b2c5b49c000");
        assert_eq!(ns_since_boot, 25721222);
    } else {
        panic!("Incorrect bpf event");
    }
}

#[test]
fn ipc_map_stats_start() {
    let event = parse("=> start map statistics");
    if let IpcBpfEvent::MapStatsStart {} = event {
    } else {
        panic!("Incorrect bpf event");
    }
}

#[test]
fn ipc_map_stats_end() {
    let event = parse("=> end map statistics");
    if let IpcBpfEvent::MapStatsEnd {} = event {
    } else {
        panic!("Incorrect bpf event");
    }
}

#[test]
fn accept_end() {
    let event = parse("AcceptEnd  \tepoll_server\t339840\tsockfs\t8\t16067228\tAF_INET\t127.0.0.1\t3001\t127.0.0.1\t53520\t535862448460614\t1111111111");
    let conn_cmp = Connection::Ipv4 { src_host: [127, 0, 0, 1], src_port: 3001, dst_host: [127, 0, 0, 1], dst_port: 53520 };
    if let IpcBpfEvent::AcceptEnd { comm, tid, fs_type, sb_id, inode_id, conn } = event {
        assert_eq!(comm, b"epoll_server".to_vec());
        assert_eq!(tid, 339840);
        assert_eq!(fs_type, b"sockfs".to_vec());
        assert_eq!(sb_id, 8);
        assert_eq!(inode_id, 16067228);
        assert_eq!(conn, conn_cmp);
    } else {
        panic!("Incorrect bpf event. {:?}", event);
    }
}

#[test]
fn connect_start() {
    let event = parse("ConnectEnd\tepoll_server\t339840\tsockfs\t8\t16052952\tAF_INET\t127.0.0.1\t39432\t127.0.0.1\t7878\t111111111111\t1034");
    let conn_cmp = Connection::Ipv4 { src_host: [127, 0, 0, 1], src_port: 39432, dst_host: [127, 0, 0, 1], dst_port: 7878 };
    if let IpcBpfEvent::ConnectEnd { comm, tid, fs_type, sb_id, inode_id, conn } = event {
        assert_eq!(comm, b"epoll_server".to_vec());
        assert_eq!(tid, 339840);
        assert_eq!(fs_type, b"sockfs".to_vec());
        assert_eq!(sb_id, 8);
        assert_eq!(inode_id, 16052952);
        assert_eq!(conn, conn_cmp);
    } else {
        panic!("Incorrect bpf event");
    }
}

#[test]
fn new_socket_map() {
    let event = parse("NewSocketMap\tsockfs\t8\t16052952\tAF_INET\t127.0.0.1\t39432\t127.0.0.1\t7878");
    let conn_cmp = Connection::Ipv4 { src_host: [127, 0, 0, 1], src_port: 39432, dst_host: [127, 0, 0, 1], dst_port: 7878 };
    if let IpcBpfEvent::NewSocketMap { fs_type, sb_id, inode_id, conn } = event {
        assert_eq!(fs_type, b"sockfs".to_vec());
        assert_eq!(sb_id, 8);
        assert_eq!(inode_id, 16052952);
        assert_eq!(conn, conn_cmp);
    } else {
        panic!("Incorrect bpf event");
    }
}

#[test]
fn new_process() {
    let event = parse("NewProcess\texample-applica\t334444");
    if let IpcBpfEvent::NewProcess { comm, pid } = event {
        assert_eq!(comm, b"example-applica".to_vec());
        assert_eq!(pid, 334444);
    } else {
        panic!("Incorrect bpf event");
    }
}

fn check_item(event: IpcBpfEvent, kind: &str, target: TargetFile, fs_expected: &str, ns: u64, c: u64) {
    let (comm, tid, event_poll, fs, target_file, ns_since_boot, contrib_snapshot) = match (kind, event) {
        ("add", IpcBpfEvent::EpollItemAdd { comm, tid, event_poll, fs, target_file, ns_since_boot, contrib_snapshot })
        | ("remove", IpcBpfEvent::EpollItemRemove { comm, tid, event_poll, fs, target_file, ns_since_boot, contrib_snapshot })
        | ("item", IpcBpfEvent::EpollItem { comm, tid, event_poll, fs, target_file, ns_since_boot, contrib_snapshot }) => {
            (comm, tid, event_poll, fs, target_file, ns_since_boot, contrib_snapshot)
        }
        _ => panic!("Incorrect bpf event"),
    };
    assert_eq!(comm, b"epoll_server".to_vec());
    assert_eq!(tid, 339840);
    assert_eq!(&format!("{:x}", event_poll), "ffff8b2c5b49c000");
    assert_eq!(fs, fs_expected.as_bytes().to_vec());
    assert_eq!(target_file, target);
    assert_eq!(ns_since_boot, ns);
    assert_eq!(contrib_snapshot, c);
}

#[test]
fn epoll_add() {
    let event = parse("EpollAdd\tepoll_server\t339840\t0xffff8b2c5b49c000\tsockfs\t8\t16052950\t534439341112792\t600572454");
    check_item(event, "add", TargetFile::Inode { device: 8, inode_id: 16052950 }, "sockfs", 534439341112792, 600572454);
}

#[test]
fn epoll_remove() {
    let event = parse("EpollRemove\tepoll_server\t339840\t0xffff8b2c5b49c000\tsockfs\t8\t16052952\t534439657922636\t1206546100");
    check_item(event, "remove", TargetFile::Inode { device: 8, inode_id: 16052952 }, "sockfs", 534439657922636, 1206546100);
}

#[test]
fn epoll_item_inode() {
    let event = parse("EpiPoll\tepoll_server\t339840\t0xffff8b2c5b49c000\tsockfs\t8\t3754233\t538189292768153\t948293676");
    check_item(event, "item", TargetFile::Inode { device: 8, inode_id: 3754233 }, "sockfs", 538189292768153, 948293676);
}

#[test]
fn epoll_item_anon_inode() {
    let event = parse("EpiPoll\tepoll_server\t339840\t0xffff8b2c5b49c000\tanon_inodefs\t[eventfd]\t0xffff8b2c5fb38000\t538285701874848\t159578");
    check_item(
        event,
        "item",
        TargetFile::AnonInode { name: b"[eventfd]".to_vec(), address: 0xffff8b2c5fb38000 },
        "anon_inodefs",
        538285701874848,
        159578,
    );
}

#[test]
fn account_global() {
    let mut program = IpcProgram::new();
    let n = program
        .poll_bytes(b"HEADER\n\nEpollAdd\tepoll_server\t339840\t0xffff8b2c5b49c000\tsockfs\t8\t16052950\t125\t25721222\n")
        .unwrap();
    assert!(n != 0, "Program did not account return global events length");
}

#[test]
fn ipv6_and_unix_connections() {
    let event = parse("NewSocketMap\tsockfs\t8\t1\tAF_INET6\t::1\t80\tfe80::1:2\t443");
    if let IpcBpfEvent::NewSocketMap { conn, .. } = event {
        assert_eq!(
            conn,
            Connection::Ipv6 { src_host: [0, 0, 0, 0, 0, 0, 0, 1], src_port: 80, dst_host: [0xfe80, 0, 0, 0, 0, 0, 1, 2], dst_port: 443 }
        );
    } else {
        panic!("Incorrect bpf event");
    }
    let event = parse("NewSocketMap\tsockfs\t8\t1\tAF_UNIX\t0xff12\t0xab");
    if let IpcBpfEvent::NewSocketMap { conn, .. } = event {
        assert_eq!(conn, Connection::Unix { src_address: 0xff12, dst_address: 0xab });
    } else {
        panic!("Incorrect bpf event");
    }
}

#[test]
fn unknown_socket_family_is_unexpected() {
    let line = "NewSocketMap\tsockfs\t8\t1\tAF_PACKET\t1\t2";
    match parse(line) {
        IpcBpfEvent::Unexpected { data } => assert_eq!(data, line.as_bytes().to_vec()),
        e => panic!("Incorrect bpf event {:?}", e),
    }
}

#[test]
fn ipv4_mapped_ipv6_connection() {
    let event = parse("NewSocketMap\tsockfs\t8\t1\tAF_INET6\t::ffff:127.0.0.1\t80\t::1.2.3.4\t443");
    if let IpcBpfEvent::NewSocketMap { conn, .. } = event {
        assert_eq!(
            conn,
            Connection::Ipv6 {
                src_host: [0, 0, 0, 0, 0, 0xffff, 0x7f00, 0x0001],
                src_port: 80,
                dst_host: [0, 0, 0, 0, 0, 0, 0x0102, 0x0304],
                dst_port: 443
            }
        );
    } else {
        panic!("Incorrect bpf event");
    }
}
