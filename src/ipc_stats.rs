//! Per-file IPC accumulators: sockets (keyed by their kernel file until a name is known)
//! and streams (pipes, epoll and anonymous inodes), per thread and per epoll instance.
use vstd::prelude::*;

use crate::clock::{epoch_ms_of, minute_bucket, minute_bucket_spec};
use crate::epoll::{acc_monotone, add_spec, inode_wait_result, wait_result, all_wf, drained, entry_after_drain, remove_spec, Attribution, AttributionError, EntryView, Snapshot, Stats};
use crate::futex::copy_bytes;
use crate::ipc::{conn_view, target_view, ConnView, Connection, IpcEvent, TargetFile, TargetView};
use crate::lits::{is_epoll, is_sockfs, lit_epoll, lit_sockfs};
use crate::pieces::{close_bracket_colon, colon, comma, csv_ext, dot, epoll_prefix, ipv4_prefix, ipv6_prefix, newline, push_close_bracket_colon, push_colon, push_comma, push_csv_ext, push_dot, push_epoll_prefix, push_ipv4_prefix, push_ipv6_prefix, push_newline, push_slash, push_socket_header, push_sockets_dir, push_stream_header, push_streams_dir, push_underscore, push_underscore_0x, push_underscore_bracket, push_unix_prefix, slash, socket_header, sockets_dir, stream_header, streams_dir, underscore, underscore_0x, underscore_bracket, unix_prefix};
use crate::render::{append, dec_text, hex_text, render_dec, render_hex};
use crate::sink::CsvRecord;
use crate::text::bytes_eq;

verus! {

/// A kernel file: (super-block id, inode id).
pub type KFile = (u32, u64);

/// The process-wide names of sockets: which connection each kernel file carries.
pub struct SocketNames {
    entries: Vec<(KFile, Connection)>,
}

pub open spec fn names_lookup(s: Seq<(KFile, Connection)>, k: KFile, i: int) -> Option<Connection>
    decreases s.len() - i,
{
    if i < 0 || i >= s.len() {
        None
    } else if s[i].0 == k {
        Some(s[i].1)
    } else {
        names_lookup(s, k, i + 1)
    }
}

impl View for SocketNames {
    type V = Seq<(KFile, Connection)>;

    closed spec fn view(&self) -> Seq<(KFile, Connection)> {
        self.entries@
    }
}

impl SocketNames {
    /// No socket named yet.
    pub fn new() -> (r: Self)
        ensures
            r@ == Seq::<(KFile, Connection)>::empty(),
            keys_unique(r@),
    {
        SocketNames { entries: Vec::new() }
    }

    /// The connection of kernel file `k`, if one is known.
    pub fn get(&self, k: KFile) -> (r: Option<Connection>)
        ensures
            r == names_lookup(self@, k, 0),
    {
        let mut i: usize = 0;
        while i < self.entries.len()
            invariant
                0 <= i <= self.entries@.len(),
                names_lookup(self@, k, 0) == names_lookup(self@, k, i as int),
            decreases self.entries@.len() - i,
        {
            let e = self.entries[i];
            if e.0.0 == k.0 && e.0.1 == k.1 {
                return Some(e.1);
            }
            i = i + 1;
        }
        None
    }

    /// Names kernel file `k` unless it already has a name (`AcceptEnd`, `ConnectEnd`).
    pub fn insert_if_absent(&mut self, k: KFile, c: Connection)
        ensures
            keys_unique(old(self)@) ==> keys_unique(final(self)@),
            names_lookup(old(self)@, k, 0) is Some ==> final(self)@ == old(self)@,
            names_lookup(old(self)@, k, 0) is None ==> final(self)@ == old(self)@.push((k, c)),
    {
        match self.get(k) {
            Some(_) => {},
            None => {
                let ghost before = self.entries@;
                self.entries.push((k, c));
                proof {
                    lemma_lookup_absent(before, k, 0);
                    assert forall|a: int, b: int| 0 <= a < b < self.entries@.len() && keys_unique(before) implies (#[trigger] self.entries@[a]).0 != (#[trigger] self.entries@[b]).0 by {
                        assert(self.entries@[a] == before[a]);
                        if b < before.len() {
                            assert(self.entries@[b] == before[b]);
                        }
                    }
                }
            },
        }
    }

    /// Names kernel file `k`, replacing any earlier name (`NewSocketMap`).
    pub fn insert(&mut self, k: KFile, c: Connection)
        ensures
            keys_unique(old(self)@) ==> keys_unique(final(self)@),
            names_lookup(final(self)@, k, 0) == Some(c),
            forall|j: KFile| j != k ==> names_lookup(final(self)@, j, 0) == names_lookup(old(self)@, j, 0),
    {
        let mut kept: Vec<(KFile, Connection)> = Vec::new();
        kept.push((k, c));
        let mut i: usize = 0;
        assert forall|j: KFile| j != k implies names_lookup(kept@, j, 0) == names_lookup(self.entries@.subrange(0, 0), j, 0) by {
            assert(kept@[0].0 != j);
            assert(names_lookup(kept@, j, 1) is None);
            assert(names_lookup(self.entries@.subrange(0, 0), j, 0) is None);
        }
        while i < self.entries.len()
            invariant
                0 <= i <= self.entries@.len(),
                kept@.len() >= 1,
                kept@[0] == (k, c),
                forall|j: KFile| j != k ==> names_lookup(kept@, j, 0) == names_lookup(self.entries@.subrange(0, i as int), j, 0),
                self.entries@ == old(self)@,
                forall|m: int| 1 <= m < kept@.len() ==> exists|p: int| 0 <= p < i && self.entries@[p].0 == (#[trigger] kept@[m]).0,
                keys_unique(old(self)@) ==> keys_unique(kept@),
            decreases self.entries@.len() - i,
        {
            let e = self.entries[i];
            if !(e.0.0 == k.0 && e.0.1 == k.1) {
                let ghost before = kept@;
                kept.push(e);
                proof {
                    assert forall|m: int| 1 <= m < kept@.len() implies exists|p: int| 0 <= p < i + 1 && self.entries@[p].0 == (#[trigger] kept@[m]).0 by {
                        if m == before.len() {
                            assert(self.entries@[i as int].0 == kept@[m].0);
                        } else {
                            assert(kept@[m] == before[m]);
                        }
                    }
                    if keys_unique(old(self)@) {
                        assert forall|a: int, b: int| 0 <= a < b < kept@.len() implies (#[trigger] kept@[a]).0 != (#[trigger] kept@[b]).0 by {
                            if b == before.len() {
                                if a >= 1 {
                                    assert(kept@[a] == before[a]);
                                    let p = choose|p: int| 0 <= p < i && self.entries@[p].0 == before[a].0;
                                    assert(self.entries@[p].0 != self.entries@[i as int].0);
                                }
                            } else {
                                assert(kept@[a] == before[a] && kept@[b] == before[b]);
                            }
                        }
                    }
                    assert forall|j: KFile| j != k implies names_lookup(kept@, j, 0) == names_lookup(self.entries@.subrange(0, i + 1), j, 0) by {
                        lemma_lookup_push(before, e, j);
                        lemma_lookup_push(self.entries@.subrange(0, i as int), e, j);
                        assert(self.entries@.subrange(0, i as int).push(e) =~= self.entries@.subrange(0, i + 1));
                    }
                }
            } else {
                proof {
                    assert forall|j: KFile| j != k implies names_lookup(kept@, j, 0) == names_lookup(self.entries@.subrange(0, i + 1), j, 0) by {
                        lemma_lookup_push(self.entries@.subrange(0, i as int), e, j);
                        assert(self.entries@.subrange(0, i as int).push(e) =~= self.entries@.subrange(0, i + 1));
                    }
                }
            }
            i = i + 1;
        }
        assert(self.entries@.subrange(0, self.entries@.len() as int) =~= self.entries@);
        self.entries = kept;
    }
}

/// No kernel file is named twice.
pub open spec fn keys_unique(s: Seq<(KFile, Connection)>) -> bool {
    forall|a: int, b: int| 0 <= a < b < s.len() ==> (#[trigger] s[a]).0 != (#[trigger] s[b]).0
}

proof fn lemma_lookup_absent(s: Seq<(KFile, Connection)>, k: KFile, i: int)
    requires
        0 <= i,
        names_lookup(s, k, i) is None,
    ensures
        forall|m: int| i <= m < s.len() ==> s[m].0 != k,
    decreases s.len() - i,
{
    if i < s.len() {
        lemma_lookup_absent(s, k, i + 1);
    }
}

proof fn lemma_lookup_from_push(s: Seq<(KFile, Connection)>, e: (KFile, Connection), j: KFile, i: int)
    requires
        0 <= i <= s.len(),
    ensures
        names_lookup(s.push(e), j, i) == (if names_lookup(s, j, i) is Some { names_lookup(s, j, i) } else if e.0 == j { Some(e.1) } else { None }),
    decreases s.len() - i,
{
    let t = s.push(e);
    if i < s.len() {
        assert(t[i] == s[i]);
        lemma_lookup_from_push(s, e, j, i + 1);
    } else {
        assert(t[i] == e);
        assert(names_lookup(t, j, i + 1) is None);
    }
}

proof fn lemma_lookup_push(s: Seq<(KFile, Connection)>, e: (KFile, Connection), j: KFile)
    ensures
        names_lookup(s.push(e), j, 0) == (if names_lookup(s, j, 0) is Some { names_lookup(s, j, 0) } else if e.0 == j { Some(e.1) } else { None }),
{
    lemma_lookup_from_push(s, e, j, 0);
}

/// What a store asks of the sink.
#[derive(Debug, PartialEq, Eq, Clone)]
pub enum SinkAction {
    /// Rename the open file at `from` to `to` before appending to `to`.
    Rename { from: Vec<u8>, to: Vec<u8> },
    /// Append one row.
    Append(CsvRecord),
}

pub enum ActionView {
    Rename(Seq<u8>, Seq<u8>),
    Append(Seq<u8>, Seq<u8>, Seq<u8>),
}

pub open spec fn action_view(a: SinkAction) -> ActionView {
    match a {
        SinkAction::Rename { from, to } => ActionView::Rename(from@, to@),
        SinkAction::Append(r) => ActionView::Append(r.path@, r.header@, r.row@),
    }
}

pub open spec fn actions_view(v: Seq<SinkAction>) -> Seq<ActionView> {
    v.map_values(|a: SinkAction| action_view(a))
}

/// `a.b.c.d`.
pub open spec fn quad_text(h: Seq<u8>) -> Seq<u8> {
    dec_text(h[0] as nat) + dot() + dec_text(h[1] as nat) + dot() + dec_text(h[2] as nat) + dot() + dec_text(h[3] as nat)
}

/// The eight groups in lowercase hexadecimal, colon-separated.
pub open spec fn segments_text(h: Seq<u16>) -> Seq<u8> {
    hex_text(h[0] as nat) + colon() + hex_text(h[1] as nat) + colon() + hex_text(h[2] as nat) + colon() + hex_text(h[3] as nat)
        + colon() + hex_text(h[4] as nat) + colon() + hex_text(h[5] as nat) + colon() + hex_text(h[6] as nat) + colon()
        + hex_text(h[7] as nat)
}

/// The file name of a named socket.
pub open spec fn conn_name(c: ConnView) -> Seq<u8> {
    match c {
        ConnView::V4 { src, src_port, dst, dst_port } => ipv4_prefix() + quad_text(src) + colon() + dec_text(src_port as nat) + underscore() + quad_text(dst) + colon() + dec_text(dst_port as nat) + csv_ext(),
        ConnView::V6 { src, src_port, dst, dst_port } => ipv6_prefix() + segments_text(src) + close_bracket_colon() + dec_text(src_port as nat) + underscore_bracket() + segments_text(dst) + close_bracket_colon() + dec_text(dst_port as nat) + csv_ext(),
        ConnView::Unix { src, dst } => unix_prefix() + hex_text(src as nat) + underscore_0x() + hex_text(dst as nat) + csv_ext(),
    }
}

/// The file name of a socket known only by its kernel file.
pub open spec fn kfile_name(device: u64, inode: u64) -> Seq<u8> {
    dec_text(device as nat) + underscore() + dec_text(inode as nat) + csv_ext()
}

/// The file name of a stream.
pub open spec fn stream_name(t: TargetView) -> Seq<u8> {
    if t.0 == 0 {
        t.1 + underscore() + hex_text(t.2 as nat) + csv_ext()
    } else if t.0 == 1 {
        dec_text(t.2 as nat) + underscore() + dec_text(t.3 as nat) + csv_ext()
    } else {
        epoll_prefix() + hex_text(t.2 as nat) + csv_ext()
    }
}

/// The minute directory of an epoch instant: `<dir><kind>/<minute>/`.
pub open spec fn minute_dir(dir: Seq<u8>, kind: Seq<u8>, ep: u128) -> Seq<u8> {
    dir + kind + dec_text(minute_bucket_spec((ep / 1_000_000) as int) as nat) + slash()
}

/// The CSV row of a snapshot.
pub open spec fn stats_row(ep: u128, st: Stats) -> Seq<u8> {
    dec_text((ep / 1_000_000) as nat) + comma() + dec_text(st.accumulated_wait as nat) + comma() + dec_text(st.count as nat) + newline()
}

/// The instant of a fixed snapshot.
pub open spec fn instant_of(s: Snapshot) -> u128 {
    match s.0 {
        Some(x) => x,
        None => 0,
    }
}

/// The sink actions of one socket snapshot: a rename when the socket has a name and its
/// file may still be open under its kernel-file name, then the row.
pub open spec fn socket_actions(dir: Seq<u8>, names: Seq<(KFile, Connection)>, d: (TargetView, Snapshot)) -> Seq<ActionView> {
    let ep = instant_of(d.1);
    let base = minute_dir(dir, sockets_dir(), ep);
    let kpath = base + kfile_name(d.0.2, d.0.3);
    let path = match names_lookup(names, (d.0.2 as u32, d.0.3), 0) {
        Some(c) => base + conn_name(conn_view(c)),
        None => kpath,
    };
    let append = ActionView::Append(path, socket_header(), stats_row(ep, d.1.1));
    if path != kpath {
        seq![ActionView::Rename(kpath, path), append]
    } else {
        seq![append]
    }
}

/// The sink action of one stream snapshot.
pub open spec fn stream_action(dir: Seq<u8>, d: (TargetView, Snapshot)) -> ActionView {
    let ep = instant_of(d.1);
    ActionView::Append(minute_dir(dir, streams_dir(), ep) + stream_name(d.0), stream_header(), stats_row(ep, d.1.1))
}

pub open spec fn all_socket_actions(dir: Seq<u8>, names: Seq<(KFile, Connection)>, ds: Seq<(TargetView, Snapshot)>) -> Seq<ActionView>
    decreases ds.len(),
{
    if ds.len() == 0 {
        Seq::empty()
    } else {
        all_socket_actions(dir, names, ds.drop_last()) + socket_actions(dir, names, ds.last())
    }
}

fn render_quad(v: &mut Vec<u8>, h: [u8; 4])
    ensures
        final(v)@ == old(v)@ + quad_text(h@),
{
    append(v, render_dec(h[0] as u128).as_slice());
    push_dot(v);
    append(v, render_dec(h[1] as u128).as_slice());
    push_dot(v);
    append(v, render_dec(h[2] as u128).as_slice());
    push_dot(v);
    append(v, render_dec(h[3] as u128).as_slice());
    assert(v@ =~= old(v)@ + quad_text(h@));
}

fn render_segments(v: &mut Vec<u8>, h: [u16; 8])
    ensures
        final(v)@ == old(v)@ + segments_text(h@),
{
    append(v, render_hex(h[0] as u128).as_slice());
    push_colon(v);
    append(v, render_hex(h[1] as u128).as_slice());
    push_colon(v);
    append(v, render_hex(h[2] as u128).as_slice());
    push_colon(v);
    append(v, render_hex(h[3] as u128).as_slice());
    push_colon(v);
    append(v, render_hex(h[4] as u128).as_slice());
    push_colon(v);
    append(v, render_hex(h[5] as u128).as_slice());
    push_colon(v);
    append(v, render_hex(h[6] as u128).as_slice());
    push_colon(v);
    append(v, render_hex(h[7] as u128).as_slice());
    assert(v@ =~= old(v)@ + segments_text(h@));
}

fn render_v4_name(src_host: [u8; 4], src_port: u64, dst_host: [u8; 4], dst_port: u64) -> (r: Vec<u8>)
    ensures
        r@ == conn_name(ConnView::V4 { src: src_host@, src_port, dst: dst_host@, dst_port }),
{
    let mut v: Vec<u8> = Vec::new();
    push_ipv4_prefix(&mut v);
    render_quad(&mut v, src_host);
    push_colon(&mut v);
    append(&mut v, render_dec(src_port as u128).as_slice());
    push_underscore(&mut v);
    render_quad(&mut v, dst_host);
    push_colon(&mut v);
    append(&mut v, render_dec(dst_port as u128).as_slice());
    push_csv_ext(&mut v);
    assert(v@ =~= conn_name(ConnView::V4 { src: src_host@, src_port, dst: dst_host@, dst_port }));
    v
}

fn render_v6_name(src_host: [u16; 8], src_port: u64, dst_host: [u16; 8], dst_port: u64) -> (r: Vec<u8>)
    ensures
        r@ == conn_name(ConnView::V6 { src: src_host@, src_port, dst: dst_host@, dst_port }),
{
    let mut v: Vec<u8> = Vec::new();
    push_ipv6_prefix(&mut v);
    render_segments(&mut v, src_host);
    push_close_bracket_colon(&mut v);
    append(&mut v, render_dec(src_port as u128).as_slice());
    push_underscore_bracket(&mut v);
    render_segments(&mut v, dst_host);
    push_close_bracket_colon(&mut v);
    append(&mut v, render_dec(dst_port as u128).as_slice());
    push_csv_ext(&mut v);
    assert(v@ =~= conn_name(ConnView::V6 { src: src_host@, src_port, dst: dst_host@, dst_port }));
    v
}

fn render_unix_name(src: u64, dst: u64) -> (r: Vec<u8>)
    ensures
        r@ == conn_name(ConnView::Unix { src, dst }),
{
    let mut v: Vec<u8> = Vec::new();
    push_unix_prefix(&mut v);
    append(&mut v, render_hex(src as u128).as_slice());
    push_underscore_0x(&mut v);
    append(&mut v, render_hex(dst as u128).as_slice());
    push_csv_ext(&mut v);
    assert(v@ =~= conn_name(ConnView::Unix { src, dst }));
    v
}

fn render_conn_name(c: Connection) -> (r: Vec<u8>)
    ensures
        r@ == conn_name(conn_view(c)),
{
    match c {
        Connection::Ipv4 { src_host, src_port, dst_host, dst_port } => render_v4_name(src_host, src_port, dst_host, dst_port),
        Connection::Ipv6 { src_host, src_port, dst_host, dst_port } => render_v6_name(src_host, src_port, dst_host, dst_port),
        Connection::Unix { src_address, dst_address } => render_unix_name(src_address, dst_address),
    }
}

fn render_minute_dir(dir: &Vec<u8>, streams: bool, ep: u128) -> (r: Vec<u8>)
    ensures
        r@ == minute_dir(dir@, if streams { streams_dir() } else { sockets_dir() }, ep),
{
    let mut v: Vec<u8> = Vec::new();
    append(&mut v, dir.as_slice());
    if streams {
        push_streams_dir(&mut v);
    } else {
        push_sockets_dir(&mut v);
    }
    append(&mut v, render_dec(minute_bucket(epoch_ms_of(ep))).as_slice());
    push_slash(&mut v);
    assert(v@ =~= minute_dir(dir@, if streams { streams_dir() } else { sockets_dir() }, ep));
    v
}

fn render_row(ep: u128, st: Stats) -> (r: Vec<u8>)
    ensures
        r@ == stats_row(ep, st),
{
    let mut v = render_dec(epoch_ms_of(ep));
    push_comma(&mut v);
    append(&mut v, render_dec(st.accumulated_wait as u128).as_slice());
    push_comma(&mut v);
    append(&mut v, render_dec(st.count as u128).as_slice());
    push_newline(&mut v);
    v
}

/// The unsigned number with the same 64 bits as `x`.
pub open spec fn bits_u64(x: i64) -> u64 {
    if x >= 0 {
        x as u64
    } else {
        (x + 0x1_0000_0000_0000_0000int) as u64
    }
}

/// Reads the bits of a signed number as unsigned.
pub fn bits_of(x: i64) -> (r: u64)
    ensures
        r == bits_u64(x),
{
    if x >= 0 {
        x as u64
    } else {
        let m = -(x + 1);
        u64::MAX - (m as u64)
    }
}

/// The epoch instant of a tracer instant.
pub open spec fn epoch_of(boot_epoch_ns: u64, t: u64) -> u128 {
    (boot_epoch_ns + t) as u128
}

/// How an event changes a socket accumulator's files (`UnexpectedTarget` for a file that
/// is not an inode; `None` for an event that is not a socket event).
pub open spec fn sockets_step(es: Seq<EntryView>, e: IpcEvent, boot_epoch_ns: u64) -> Option<(Result<(), AttributionError>, Seq<EntryView>)> {
    match e {
        IpcEvent::AcceptEnd { .. } | IpcEvent::ConnectEnd { .. } => Some((Ok(()), es)),
        IpcEvent::InodeWait { sb_id, inode_id, sample_instant_ns, total_interval_wait_ns, count_wait, .. } => Some(inode_wait_result(
            es,
            (1, Seq::empty(), sb_id as u64, bits_u64(inode_id)),
            epoch_of(boot_epoch_ns, sample_instant_ns),
            total_interval_wait_ns,
            match count_wait { Some(c) => c, None => 0 },
        )),
        IpcEvent::EpollItemAdd { target_file, contrib_snapshot, .. } | IpcEvent::EpollItem { target_file, contrib_snapshot, .. } => if target_file is Inode {
            Some((Ok(()), add_spec(es, target_view(target_file), contrib_snapshot)))
        } else {
            Some((Err(AttributionError::UnexpectedTarget), es))
        },
        IpcEvent::EpollItemRemove { target_file, contrib_snapshot, .. } => if target_file is Inode {
            Some((Ok(()), remove_spec(es, target_view(target_file), contrib_snapshot)))
        } else {
            Some((Err(AttributionError::UnexpectedTarget), es))
        },
        IpcEvent::EpollWait { sample_instant_ns, total_interval_wait_ns, .. } => Some(wait_result(es, epoch_of(boot_epoch_ns, sample_instant_ns), total_interval_wait_ns)),
        _ => None,
    }
}

/// The stream a per-interval inode wait concerns: for `fs_type` `epoll` the inode number is
/// the epoll instance's address, read bit for bit as unsigned.
pub open spec fn stream_target(fs_type: Seq<u8>, sb_id: u32, inode_id: i64) -> TargetView {
    if fs_type == lit_epoll() {
        (2, Seq::empty(), bits_u64(inode_id), 0)
    } else {
        (1, Seq::empty(), sb_id as u64, bits_u64(inode_id))
    }
}

/// How an event changes a stream accumulator's files (`None`: not a stream event).
pub open spec fn pipes_step(es: Seq<EntryView>, e: IpcEvent, boot_epoch_ns: u64) -> Option<(Result<(), AttributionError>, Seq<EntryView>)> {
    match e {
        IpcEvent::InodeWait { fs_type, sb_id, inode_id, sample_instant_ns, total_interval_wait_ns, count_wait, .. } => Some(inode_wait_result(
            es,
            stream_target(fs_type@, sb_id, inode_id),
            epoch_of(boot_epoch_ns, sample_instant_ns),
            total_interval_wait_ns,
            match count_wait { Some(c) => c, None => 0 },
        )),
        IpcEvent::EpollItemAdd { target_file, contrib_snapshot, .. } | IpcEvent::EpollItem { target_file, contrib_snapshot, .. } => Some((Ok(()), add_spec(es, target_view(target_file), contrib_snapshot))),
        IpcEvent::EpollItemRemove { target_file, contrib_snapshot, .. } => Some((Ok(()), remove_spec(es, target_view(target_file), contrib_snapshot))),
        IpcEvent::EpollWait { sample_instant_ns, total_interval_wait_ns, .. } => Some(wait_result(es, epoch_of(boot_epoch_ns, sample_instant_ns), total_interval_wait_ns)),
        _ => None,
    }
}

/// How a socket event changes the socket names: `AcceptEnd` / `ConnectEnd` name a kernel
/// file that has no name yet.
pub open spec fn names_step(names: Seq<(KFile, Connection)>, e: IpcEvent) -> Seq<(KFile, Connection)> {
    match e {
        IpcEvent::AcceptEnd { sb_id, inode_id, conn, .. } | IpcEvent::ConnectEnd { sb_id, inode_id, conn, .. } => if names_lookup(names, (sb_id, inode_id), 0) is Some {
            names
        } else {
            names.push(((sb_id, inode_id), conn))
        },
        _ => names,
    }
}

/// Applies an event to an attribution according to the event's kind and target.
fn apply_target_event(a: &mut Attribution, t: &TargetFile, event: &IpcEvent, ep: u128) -> (r: Result<(), AttributionError>)
    requires
        all_wf(old(a)@),
        event is EpollItemAdd || event is EpollItem || event is EpollItemRemove || event is EpollWait,
    ensures
        all_wf(final(a)@),
        acc_monotone(old(a)@, final(a)@),
        match *event {
            IpcEvent::EpollItemAdd { contrib_snapshot, .. } | IpcEvent::EpollItem { contrib_snapshot, .. } => r == Ok::<(), AttributionError>(()) && final(a)@ == add_spec(old(a)@, target_view(*t), contrib_snapshot),
            IpcEvent::EpollItemRemove { contrib_snapshot, .. } => r == Ok::<(), AttributionError>(()) && final(a)@ == remove_spec(old(a)@, target_view(*t), contrib_snapshot),
            IpcEvent::EpollWait { total_interval_wait_ns, .. } => (r, final(a)@) == wait_result(old(a)@, ep, total_interval_wait_ns),
            _ => true,
        },
{
    match event {
        IpcEvent::EpollItemAdd { contrib_snapshot, .. } | IpcEvent::EpollItem { contrib_snapshot, .. } => {
            a.item_add(t, *contrib_snapshot);
            Ok(())
        },
        IpcEvent::EpollItemRemove { contrib_snapshot, .. } => {
            a.item_remove(t, *contrib_snapshot);
            Ok(())
        },
        IpcEvent::EpollWait { total_interval_wait_ns, .. } => a.epoll_wait(ep, *total_interval_wait_ns),
        _ => Ok(()),
    }
}

/// The socket accumulator of one thread or one epoll instance.
pub struct Sockets {
    attribution: Attribution,
    target_subdirectory: Vec<u8>,
}

impl Sockets {
    pub closed spec fn files(&self) -> Seq<EntryView> {
        self.attribution@
    }

    pub closed spec fn dir(&self) -> Seq<u8> {
        self.target_subdirectory@
    }

    /// An accumulator whose files go under `<target_subdirectory>/sockets/`.
    pub fn new(target_subdirectory: Vec<u8>) -> (r: Self)
        ensures
            r.files() == Seq::<EntryView>::empty(),
            r.dir() == target_subdirectory@,
    {
        Sockets { attribution: Attribution::new(), target_subdirectory }
    }

    /// The files, in the order they were first seen.
    pub fn attribution(&self) -> (r: &Attribution)
        ensures
            r@ == self.files(),
    {
        &self.attribution
    }

    /// Applies one event; `UnexpectedEvent` for an event that is not a socket event.
    pub fn process_event(&mut self, event: IpcEvent, names: &mut SocketNames, boot_epoch_ns: u64) -> (r: Result<(), AttributionError>)
        requires
            all_wf(old(self).files()),
        ensures
            all_wf(final(self).files()),
            acc_monotone(old(self).files(), final(self).files()),
            final(self).dir() == old(self).dir(),
            final(names)@ == names_step(old(names)@, event),
            match sockets_step(old(self).files(), event, boot_epoch_ns) {
                Some((res, es)) => r == res && final(self).files() == es,
                None => r == Err::<(), AttributionError>(AttributionError::UnexpectedEvent) && final(self).files() == old(self).files(),
            },
    {
        match event {
            IpcEvent::AcceptEnd { sb_id, inode_id, conn, .. } | IpcEvent::ConnectEnd { sb_id, inode_id, conn, .. } => {
                names.insert_if_absent((sb_id, inode_id), conn);
                Ok(())
            },
            IpcEvent::InodeWait { sb_id, inode_id, sample_instant_ns, total_interval_wait_ns, count_wait, .. } => {
                let t = TargetFile::Inode { device: sb_id, inode_id: bits_of(inode_id) };
                let ep = boot_epoch_ns as u128 + sample_instant_ns as u128;
                let count = match count_wait { Some(c) => c, None => 0 };
                self.attribution.inode_wait(&t, ep, total_interval_wait_ns, count)
            },
            IpcEvent::EpollItemAdd { ref target_file, .. } | IpcEvent::EpollItem { ref target_file, .. } | IpcEvent::EpollItemRemove { ref target_file, .. } => {
                match target_file {
                    TargetFile::Inode { .. } => apply_target_event(&mut self.attribution, target_file, &event, 0),
                    _ => Err(AttributionError::UnexpectedTarget),
                }
            },
            IpcEvent::EpollWait { sample_instant_ns, total_interval_wait_ns, .. } => {
                let ep = boot_epoch_ns as u128 + sample_instant_ns as u128;
                self.attribution.epoll_wait(ep, total_interval_wait_ns)
            },
            _ => Err(AttributionError::UnexpectedEvent),
        }
    }
}

/// The stream accumulator of one thread or one epoll instance.
pub struct Pipes {
    attribution: Attribution,
    target_subdirectory: Vec<u8>,
}

impl Pipes {
    pub closed spec fn files(&self) -> Seq<EntryView> {
        self.attribution@
    }

    pub closed spec fn dir(&self) -> Seq<u8> {
        self.target_subdirectory@
    }

    /// An accumulator whose files go under `<target_subdirectory>/streams/`.
    pub fn new(target_subdirectory: Vec<u8>) -> (r: Self)
        ensures
            r.files() == Seq::<EntryView>::empty(),
            r.dir() == target_subdirectory@,
    {
        Pipes { attribution: Attribution::new(), target_subdirectory }
    }

    /// The files, in the order they were first seen.
    pub fn attribution(&self) -> (r: &Attribution)
        ensures
            r@ == self.files(),
    {
        &self.attribution
    }

    /// Applies one event; `UnexpectedEvent` for an event that is not a stream event.
    pub fn process_event(&mut self, event: IpcEvent, boot_epoch_ns: u64) -> (r: Result<(), AttributionError>)
        requires
            all_wf(old(self).files()),
        ensures
            all_wf(final(self).files()),
            acc_monotone(old(self).files(), final(self).files()),
            final(self).dir() == old(self).dir(),
            match pipes_step(old(self).files(), event, boot_epoch_ns) {
                Some((res, es)) => r == res && final(self).files() == es,
                None => r == Err::<(), AttributionError>(AttributionError::UnexpectedEvent) && final(self).files() == old(self).files(),
            },
    {
        let ghost es0 = self.files();
        match event {
            IpcEvent::InodeWait { ref fs_type, sb_id, inode_id, sample_instant_ns, total_interval_wait_ns, count_wait, .. } => {
                let is_ep = is_epoll(fs_type.as_slice());
                assert(is_ep == (fs_type@ == lit_epoll()));
                let b = bits_of(inode_id);
                let t = if is_ep {
                    TargetFile::Epoll { address: b }
                } else {
                    TargetFile::Inode { device: sb_id, inode_id: b }
                };
                assert(target_view(t) == stream_target(fs_type@, sb_id, inode_id));
                let ep = boot_epoch_ns as u128 + sample_instant_ns as u128;
                assert(ep == epoch_of(boot_epoch_ns, sample_instant_ns));
                let count = match count_wait { Some(c) => c, None => 0 };
                let r = self.attribution.inode_wait(&t, ep, total_interval_wait_ns, count);
                assert((r, self.files()) == inode_wait_result(es0, stream_target(fs_type@, sb_id, inode_id), ep, total_interval_wait_ns, count));
                r
            },
            IpcEvent::EpollItemAdd { ref target_file, .. } | IpcEvent::EpollItem { ref target_file, .. } | IpcEvent::EpollItemRemove { ref target_file, .. } => {
                apply_target_event(&mut self.attribution, target_file, &event, 0)
            },
            IpcEvent::EpollWait { sample_instant_ns, total_interval_wait_ns, .. } => {
                let ep = boot_epoch_ns as u128 + sample_instant_ns as u128;
                assert(ep == epoch_of(boot_epoch_ns, sample_instant_ns));
                let r = self.attribution.epoll_wait(ep, total_interval_wait_ns);
                assert((r, self.files()) == wait_result(es0, ep, total_interval_wait_ns));
                r
            },
            _ => Err(AttributionError::UnexpectedEvent),
        }
    }
}

pub open spec fn pair_views(v: Seq<(TargetFile, Snapshot)>) -> Seq<(TargetView, Snapshot)> {
    Seq::new(v.len(), |i: int| (target_view(v[i].0), v[i].1))
}

fn socket_actions_exec(dir: &Vec<u8>, names: &SocketNames, t: &TargetFile, snap: Snapshot) -> (r: Vec<SinkAction>)
    ensures
        actions_view(r@) == socket_actions(dir@, names@, (target_view(*t), snap)),
{
    let ep: u128 = match snap.0 {
        Some(x) => x,
        None => 0,
    };
    let (dev, inode): (u64, u64) = match t {
        TargetFile::AnonInode { address, .. } => (*address, 0),
        TargetFile::Inode { device, inode_id } => (*device as u64, *inode_id),
        TargetFile::Epoll { address } => (*address, 0),
    };
    let base = render_minute_dir(dir, false, ep);
    let mut kpath: Vec<u8> = Vec::new();
    append(&mut kpath, base.as_slice());
    append(&mut kpath, render_dec(dev as u128).as_slice());
    push_underscore(&mut kpath);
    append(&mut kpath, render_dec(inode as u128).as_slice());
    push_csv_ext(&mut kpath);
    assert(kpath@ =~= minute_dir(dir@, sockets_dir(), ep) + kfile_name(dev, inode));
    let mut path: Vec<u8> = Vec::new();
    append(&mut path, base.as_slice());
    match names.get(((dev as u32), inode)) {
        Some(c) => {
            append(&mut path, render_conn_name(c).as_slice());
        },
        None => {
            path = copy_bytes(&kpath);
        },
    }
    let mut header: Vec<u8> = Vec::new();
    push_socket_header(&mut header);
    let row = render_row(ep, snap.1);
    let same = bytes_eq(path.as_slice(), kpath.as_slice());
    let mut out: Vec<SinkAction> = Vec::new();
    if !same {
        out.push(SinkAction::Rename { from: kpath, to: copy_bytes(&path) });
    }
    out.push(SinkAction::Append(CsvRecord { path, header, row }));
    assert(header@ =~= socket_header());
    assert(actions_view(out@) =~= socket_actions(dir@, names@, (target_view(*t), snap)));
    out
}

impl Sockets {
    /// Takes every fixed snapshot, file by file and oldest first, as sink actions: a row
    /// for the file named after the socket's connection when one is known (renaming the
    /// kernel-file-named file first), after its kernel file otherwise.
    pub fn store(&mut self, names: &SocketNames) -> (r: Vec<SinkAction>)
        requires
            all_wf(old(self).files()),
        ensures
            actions_view(r@) == all_socket_actions(old(self).dir(), names@, drained(old(self).files())),
            final(self).files() == Seq::new(old(self).files().len(), |i: int| entry_after_drain(old(self).files()[i])),
            all_wf(final(self).files()),
            final(self).dir() == old(self).dir(),
    {
        let d = self.attribution.drain_fixed();
        let ghost dv = pair_views(d@);
        assert(dv == drained(old(self).files()));
        let mut out: Vec<SinkAction> = Vec::new();
        let mut i: usize = 0;
        assert(dv.subrange(0, 0) =~= Seq::<(TargetView, Snapshot)>::empty());
        assert(actions_view(out@) =~= Seq::empty());
        while i < d.len()
            invariant
                0 <= i <= d@.len(),
                dv == pair_views(d@),
                actions_view(out@) == all_socket_actions(self.target_subdirectory@, names@, dv.subrange(0, i as int)),
            decreases d@.len() - i,
        {
            let acts = socket_actions_exec(&self.target_subdirectory, names, &d[i].0, d[i].1);
            let ghost before = actions_view(out@);
            let mut acts = acts;
            out.append(&mut acts);
            assert(dv.subrange(0, i + 1).drop_last() =~= dv.subrange(0, i as int));
            assert(dv.subrange(0, i + 1).last() == (target_view(d@[i as int].0), d@[i as int].1));
            assert(actions_view(out@) =~= before + socket_actions(self.target_subdirectory@, names@, (target_view(d@[i as int].0), d@[i as int].1)));
            i = i + 1;
        }
        assert(dv.subrange(0, d@.len() as int) =~= dv);
        out
    }
}

pub open spec fn all_stream_actions(dir: Seq<u8>, ds: Seq<(TargetView, Snapshot)>) -> Seq<ActionView> {
    Seq::new(ds.len(), |i: int| stream_action(dir, ds[i]))
}

fn stream_action_exec(dir: &Vec<u8>, t: &TargetFile, snap: Snapshot) -> (r: SinkAction)
    ensures
        action_view(r) == stream_action(dir@, (target_view(*t), snap)),
{
    let ep: u128 = match snap.0 {
        Some(x) => x,
        None => 0,
    };
    let mut path = render_minute_dir(dir, true, ep);
    let ghost base = path@;
    match t {
        TargetFile::AnonInode { name, address } => {
            append(&mut path, name.as_slice());
            push_underscore(&mut path);
            append(&mut path, render_hex(*address as u128).as_slice());
            push_csv_ext(&mut path);
        },
        TargetFile::Inode { device, inode_id } => {
            append(&mut path, render_dec(*device as u128).as_slice());
            push_underscore(&mut path);
            append(&mut path, render_dec(*inode_id as u128).as_slice());
            push_csv_ext(&mut path);
        },
        TargetFile::Epoll { address } => {
            push_epoll_prefix(&mut path);
            append(&mut path, render_hex(*address as u128).as_slice());
            push_csv_ext(&mut path);
        },
    }
    assert(path@ =~= base + stream_name(target_view(*t)));
    let mut header: Vec<u8> = Vec::new();
    push_stream_header(&mut header);
    assert(header@ =~= stream_header());
    let row = render_row(ep, snap.1);
    SinkAction::Append(CsvRecord { path, header, row })
}

impl Pipes {
    /// Takes every fixed snapshot, file by file and oldest first, as rows of the stream
    /// files.
    pub fn store(&mut self) -> (r: Vec<SinkAction>)
        requires
            all_wf(old(self).files()),
        ensures
            actions_view(r@) == all_stream_actions(old(self).dir(), drained(old(self).files())),
            final(self).files() == Seq::new(old(self).files().len(), |i: int| entry_after_drain(old(self).files()[i])),
            all_wf(final(self).files()),
            final(self).dir() == old(self).dir(),
    {
        let d = self.attribution.drain_fixed();
        let ghost dv = pair_views(d@);
        let mut out: Vec<SinkAction> = Vec::new();
        let mut i: usize = 0;
        while i < d.len()
            invariant
                0 <= i <= d@.len(),
                dv == pair_views(d@),
                out@.len() == i,
                forall|j: int| 0 <= j < i ==> action_view(#[trigger] out@[j]) == stream_action(self.target_subdirectory@, dv[j]),
            decreases d@.len() - i,
        {
            let a = stream_action_exec(&self.target_subdirectory, &d[i].0, d[i].1);
            out.push(a);
            i = i + 1;
        }
        assert(actions_view(out@) =~= all_stream_actions(self.target_subdirectory@, dv));
        out
    }
}

/// How an epoll event changes an epoll instance whose socket and stream files were
/// `sockets` and `pipes`: item events go to the sockets when the file system is `sockfs`
/// and to the streams otherwise; a wait goes to the sockets, then, if they took it, to the
/// streams; anything else is refused with `UnexpectedEvent`.
pub open spec fn poll_event_ok(sockets: Seq<EntryView>, pipes: Seq<EntryView>, p: EventPoll, event: IpcEvent, r: Result<(), AttributionError>, boot_epoch_ns: u64) -> bool {
    match event {
        IpcEvent::EpollItemAdd { fs, .. } | IpcEvent::EpollItem { fs, .. } | IpcEvent::EpollItemRemove { fs, .. } => if fs@ == lit_sockfs() {
            sockets_step(sockets, event, boot_epoch_ns) == Some((r, p.sockets.files())) && p.pipes.files() == pipes
        } else {
            pipes_step(pipes, event, boot_epoch_ns) == Some((r, p.pipes.files())) && p.sockets.files() == sockets
        },
        IpcEvent::EpollWait { .. } => match sockets_step(sockets, event, boot_epoch_ns) {
            Some((Ok(()), es)) => p.sockets.files() == es && pipes_step(pipes, event, boot_epoch_ns) == Some((r, p.pipes.files())),
            Some((Err(e), es)) => r == Err::<(), AttributionError>(e) && p.sockets.files() == es && p.pipes.files() == pipes,
            None => false,
        },
        _ => r == Err::<(), AttributionError>(AttributionError::UnexpectedEvent) && p.sockets.files() == sockets && p.pipes.files() == pipes,
    }
}

/// The epoll instance an epoll event concerns.
pub open spec fn event_poll_of(e: IpcEvent) -> Option<u64> {
    match e {
        IpcEvent::EpollItemAdd { event_poll, .. } | IpcEvent::EpollItem { event_poll, .. } | IpcEvent::EpollItemRemove { event_poll, .. }
        | IpcEvent::EpollWait { event_poll, .. } => Some(event_poll),
        _ => None,
    }
}

/// The accumulators of one epoll instance.
pub struct EventPoll {
    pub address: u64,
    pub sockets: Sockets,
    pub pipes: Pipes,
}

impl EventPoll {
    pub open spec fn wf(&self) -> bool {
        all_wf(self.sockets.files()) && all_wf(self.pipes.files())
    }

    /// Applies one epoll event: item events go to the sockets when the file system is
    /// `sockfs` and to the streams otherwise; a wait goes to both.
    pub fn process_event(&mut self, event: IpcEvent, names: &mut SocketNames, boot_epoch_ns: u64) -> (r: Result<(), AttributionError>)
        requires
            old(self).wf(),
        ensures
            final(self).wf(),
            final(self).address == old(self).address,
            final(names)@ == old(names)@,
            poll_event_ok(old(self).sockets.files(), old(self).pipes.files(), *final(self), event, r, boot_epoch_ns),
    {
        match &event {
            IpcEvent::EpollItemAdd { fs, .. } | IpcEvent::EpollItem { fs, .. } | IpcEvent::EpollItemRemove { fs, .. } => {
                if is_sockfs(fs.as_slice()) {
                    self.sockets.process_event(event, names, boot_epoch_ns)
                } else {
                    self.pipes.process_event(event, boot_epoch_ns)
                }
            },
            IpcEvent::EpollWait { event_poll, sample_instant_ns, total_interval_wait_ns } => {
                let copy = IpcEvent::EpollWait { event_poll: *event_poll, sample_instant_ns: *sample_instant_ns, total_interval_wait_ns: *total_interval_wait_ns };
                match self.sockets.process_event(copy, names, boot_epoch_ns) {
                    Ok(()) => self.pipes.process_event(event, boot_epoch_ns),
                    Err(e) => Err(e),
                }
            },
            _ => Err(AttributionError::UnexpectedEvent),
        }
    }

    /// The sink actions of both accumulators: sockets first, then streams.
    pub fn store(&mut self, names: &SocketNames) -> (r: Vec<SinkAction>)
        requires
            old(self).wf(),
        ensures
            final(self).wf(),
            final(self).address == old(self).address,
            actions_view(r@) == all_socket_actions(old(self).sockets.dir(), names@, drained(old(self).sockets.files()))
                + all_stream_actions(old(self).pipes.dir(), drained(old(self).pipes.files())),
    {
        let mut a = self.sockets.store(names);
        let mut b = self.pipes.store();
        let ghost av = actions_view(a@);
        let ghost bv = actions_view(b@);
        a.append(&mut b);
        assert(actions_view(a@) =~= av + bv);
        a
    }
}

/// The epoll instances seen so far, each with its accumulators under
/// `<root>/global/epoll/<address in hex>`.
pub struct EventPollCollection {
    pub event_poll_map: Vec<EventPoll>,
    pub root_directory: Vec<u8>,
}

pub open spec fn find_poll(v: Seq<EventPoll>, a: u64, i: int) -> int
    decreases v.len() - i,
{
    if i < 0 || i >= v.len() {
        -1
    } else if v[i].address == a {
        i
    } else {
        find_poll(v, a, i + 1)
    }
}

impl EventPollCollection {
    pub open spec fn wf(&self) -> bool {
        forall|i: int| 0 <= i < self.event_poll_map@.len() ==> (#[trigger] self.event_poll_map@[i]).wf()
    }

    /// No epoll instance yet; files go under `<root_directory>/global/epoll`.
    pub fn new(root_directory: &[u8]) -> (r: Self)
        ensures
            r.event_poll_map@.len() == 0,
            r.wf(),
    {
        let mut dir: Vec<u8> = Vec::new();
        append(&mut dir, root_directory);
        append(&mut dir, &[47u8, 103, 108, 111, 98, 97, 108, 47, 101, 112, 111, 108, 108]);
        EventPollCollection { event_poll_map: Vec::new(), root_directory: dir }
    }

    fn find(&self, a: u64) -> (r: Option<usize>)
        ensures
            match r {
                Some(i) => i as int == find_poll(self.event_poll_map@, a, 0) && i < self.event_poll_map@.len() && self.event_poll_map@[i as int].address == a,
                None => find_poll(self.event_poll_map@, a, 0) < 0,
            },
    {
        let mut i: usize = 0;
        while i < self.event_poll_map.len()
            invariant
                0 <= i <= self.event_poll_map@.len(),
                find_poll(self.event_poll_map@, a, 0) == find_poll(self.event_poll_map@, a, i as int),
            decreases self.event_poll_map@.len() - i,
        {
            if self.event_poll_map[i].address == a {
                return Some(i);
            }
            i = i + 1;
        }
        None
    }

    /// Routes a global IPC event: epoll events to the accumulators of their epoll instance
    /// (created on first sight), `NewSocketMap` to the socket names (replacing any earlier
    /// name); anything else is refused with `UnexpectedEvent`.
    pub fn process_event(&mut self, event: IpcEvent, names: &mut SocketNames, boot_epoch_ns: u64) -> (r: Result<(), AttributionError>)
        requires
            old(self).wf(),
        ensures
            final(self).wf(),
            match event {
                IpcEvent::NewSocketMap { sb_id, inode_id, conn, .. } => r is Ok && names_lookup(final(names)@, (sb_id, inode_id), 0) == Some(conn)
                    && (forall|j: KFile| j != (sb_id, inode_id) ==> names_lookup(final(names)@, j, 0) == names_lookup(old(names)@, j, 0)),
                IpcEvent::EpollItemAdd { event_poll, .. } | IpcEvent::EpollItem { event_poll, .. } | IpcEvent::EpollItemRemove { event_poll, .. }
                | IpcEvent::EpollWait { event_poll, .. } => {
                    let i = find_poll(final(self).event_poll_map@, event_poll, 0);
                    let known = find_poll(old(self).event_poll_map@, event_poll, 0) >= 0;
                    &&& final(names)@ == old(names)@
                    &&& 0 <= i < final(self).event_poll_map@.len()
                    &&& final(self).event_poll_map@[i].address == event_poll
                    &&& final(self).event_poll_map@.len() == old(self).event_poll_map@.len() + if known { 0int } else { 1int }
                    &&& forall|k: int| 0 <= k < final(self).event_poll_map@.len() && k != i ==> final(self).event_poll_map@[k] == old(self).event_poll_map@[k]
                    &&& known ==> i == find_poll(old(self).event_poll_map@, event_poll, 0) && poll_event_ok(
                        old(self).event_poll_map@[i].sockets.files(), old(self).event_poll_map@[i].pipes.files(), final(self).event_poll_map@[i], event, r, boot_epoch_ns)
                    &&& !known ==> i == old(self).event_poll_map@.len() && poll_event_ok(
                        Seq::empty(), Seq::empty(), final(self).event_poll_map@[i], event, r, boot_epoch_ns)
                },
                _ => r == Err::<(), AttributionError>(AttributionError::UnexpectedEvent) && final(self).event_poll_map@ == old(self).event_poll_map@,
            },
    {
        let address = match &event {
            IpcEvent::NewSocketMap { sb_id, inode_id, conn, .. } => {
                names.insert((*sb_id, *inode_id), *conn);
                return Ok(());
            },
            IpcEvent::EpollItemAdd { event_poll, .. } | IpcEvent::EpollItem { event_poll, .. } | IpcEvent::EpollItemRemove { event_poll, .. }
            | IpcEvent::EpollWait { event_poll, .. } => *event_poll,
            _ => return Err(AttributionError::UnexpectedEvent),
        };
        let i = match self.find(address) {
            Some(i) => i,
            None => {
                let mut dir: Vec<u8> = Vec::new();
                append(&mut dir, self.root_directory.as_slice());
                push_slash(&mut dir);
                append(&mut dir, render_hex(address as u128).as_slice());
                let poll = EventPoll { address, sockets: Sockets::new(copy_bytes(&dir)), pipes: Pipes::new(dir) };
                let ghost ob = self.event_poll_map@;
                self.event_poll_map.push(poll);
                proof {
                    lemma_find_poll_push(ob, poll, address);
                }
                self.event_poll_map.len() - 1
            },
        };
        let ghost before = self.event_poll_map@;
        let mut poll = self.event_poll_map.remove(i);
        let r = poll.process_event(event, names, boot_epoch_ns);
        let ghost pv = poll;
        self.event_poll_map.insert(i, poll);
        assert(self.event_poll_map@ =~= before.update(i as int, pv));
        proof {
            lemma_find_poll_update(before, address, i as int, pv);
        }
        assert forall|k: int| 0 <= k < self.event_poll_map@.len() implies (#[trigger] self.event_poll_map@[k]).wf() by {
            if k != i {
                assert(self.event_poll_map@[k] == before[k]);
            }
        }
        proof {
            lemma_find_poll_at(self.event_poll_map@, address, i as int);
        }
        r
    }

    /// The sink actions of every epoll instance, in the order they were first seen.
    pub fn store(&mut self, names: &SocketNames) -> (r: Vec<SinkAction>)
        requires
            old(self).wf(),
        ensures
            final(self).wf(),
            actions_view(r@) == polls_actions(names@, old(self).event_poll_map@),
    {
        let ghost orig = self.event_poll_map@;
        let mut out: Vec<SinkAction> = Vec::new();
        let mut i: usize = 0;
        assert(orig.subrange(0, 0) =~= Seq::<EventPoll>::empty());
        assert(actions_view(out@) =~= Seq::empty());
        while i < self.event_poll_map.len()
            invariant
                0 <= i <= self.event_poll_map@.len(),
                self.event_poll_map@.len() == orig.len(),
                self.wf(),
                forall|k: int| i <= k < orig.len() ==> self.event_poll_map@[k] == orig[k],
                actions_view(out@) == polls_actions(names@, orig.subrange(0, i as int)),
                orig == old(self).event_poll_map@,
            decreases self.event_poll_map@.len() - i,
        {
            let ghost before = self.event_poll_map@;
            let mut poll = self.event_poll_map.remove(i);
            assert(poll == orig[i as int]);
            let mut acts = poll.store(names);
            self.event_poll_map.insert(i, poll);
            assert forall|k: int| 0 <= k < self.event_poll_map@.len() implies (#[trigger] self.event_poll_map@[k]).wf() by {
                if k != i {
                    assert(self.event_poll_map@[k] == before[k]);
                }
            }
            let ghost prev = actions_view(out@);
            let ghost av = actions_view(acts@);
            out.append(&mut acts);
            assert(actions_view(out@) =~= prev + av);
            assert(orig.subrange(0, i + 1).drop_last() =~= orig.subrange(0, i as int));
            assert(orig.subrange(0, i + 1).last() == orig[i as int]);
            i = i + 1;
        }
        assert(orig.subrange(0, orig.len() as int) =~= orig);
        out
    }
}

/// The sink actions of one epoll instance: its sockets', then its streams'.
pub open spec fn poll_actions(names: Seq<(KFile, Connection)>, p: EventPoll) -> Seq<ActionView> {
    all_socket_actions(p.sockets.dir(), names, drained(p.sockets.files())) + all_stream_actions(p.pipes.dir(), drained(p.pipes.files()))
}

/// The sink actions of the epoll instances, in order.
pub open spec fn polls_actions(names: Seq<(KFile, Connection)>, ps: Seq<EventPoll>) -> Seq<ActionView>
    decreases ps.len(),
{
    if ps.len() == 0 {
        Seq::empty()
    } else {
        polls_actions(names, ps.drop_last()) + poll_actions(names, ps.last())
    }
}

proof fn lemma_find_poll_update(v: Seq<EventPoll>, a: u64, i: int, p: EventPoll)
    requires
        0 <= i < v.len(),
        find_poll(v, a, 0) == i,
        p.address == a,
    ensures
        find_poll(v.update(i, p), a, 0) == i,
{
    lemma_find_poll_before(v, v.update(i, p), a, 0, i);
}

proof fn lemma_find_poll_before(v: Seq<EventPoll>, w: Seq<EventPoll>, a: u64, j: int, i: int)
    requires
        0 <= j <= i < v.len(),
        v.len() == w.len(),
        find_poll(v, a, j) == i,
        w[i].address == a,
        forall|k: int| 0 <= k < i ==> w[k].address == v[k].address,
    ensures
        find_poll(w, a, j) == i,
    decreases i - j,
{
    if j < i {
        lemma_find_poll_before(v, w, a, j + 1, i);
    }
}

proof fn lemma_find_poll_push(v: Seq<EventPoll>, p: EventPoll, a: u64)
    requires
        find_poll(v, a, 0) < 0,
        p.address == a,
    ensures
        find_poll(v.push(p), a, 0) == v.len(),
{
    lemma_find_poll_push_from(v, p, a, 0);
}

proof fn lemma_find_poll_push_from(v: Seq<EventPoll>, p: EventPoll, a: u64, j: int)
    requires
        0 <= j <= v.len(),
        find_poll(v, a, j) < 0,
        p.address == a,
    ensures
        find_poll(v.push(p), a, j) == v.len(),
    decreases v.len() - j,
{
    if j < v.len() {
        assert(v.push(p)[j] == v[j]);
        lemma_find_poll_push_from(v, p, a, j + 1);
    } else {
        assert(v.push(p)[j] == p);
    }
}

proof fn lemma_find_poll_at(v: Seq<EventPoll>, a: u64, i: int)
    requires
        0 <= i < v.len(),
        v[i].address == a,
    ensures
        find_poll(v, a, 0) >= 0,
{
    lemma_find_poll_le(v, a, 0, i);
}

proof fn lemma_find_poll_le(v: Seq<EventPoll>, a: u64, j: int, i: int)
    requires
        0 <= j <= i < v.len(),
        v[i].address == a,
    ensures
        find_poll(v, a, j) >= 0,
    decreases i - j,
{
    if j < i && v[j].address != a {
        lemma_find_poll_le(v, a, j + 1, i);
    }
}

} // verus!
