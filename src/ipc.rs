//! The IPC dialect: sockets, pipes and epoll activity reported by the IPC tracing script.
use vstd::prelude::*;

use crate::closure::{derive_wait, derived_wait, instants_ordered, pending_extra, pending_wait, ReduceError};
use crate::frame::{frame_run, BpfReader, FrameReader, FrameState};
use crate::lits::{
    is_accept_end, is_accept_start, is_af_inet, is_af_inet6, is_af_unix, is_anon_inodefs,
    is_connect_end, is_connect_start, is_epi_poll, is_epoll_add, is_epoll_map, is_epoll_pending,
    is_epoll_remove, is_inode_map, is_inode_pending, is_new_process, is_new_socket_map,
    is_sample_instant, is_unhandled_file_mode, is_unhandled_sock_fam, lit_accept_end,
    lit_accept_start, lit_af_inet, lit_af_inet6, lit_af_unix, lit_anon_inodefs, lit_connect_end,
    lit_connect_start, lit_epi_poll, lit_epoll_add, lit_epoll_map, lit_epoll_pending,
    lit_epoll_remove, lit_inode_map, lit_inode_pending, lit_new_process, lit_new_socket_map,
    lit_sample_instant, lit_unhandled_file_mode, lit_unhandled_sock_fam,
};
use crate::text::{
    all_hex, bytes_eq, dec_fits, dec_value, hex_value, split, split_spec, starts_with,
    starts_with_spec, subslice, trim, trim_spec, views,
};
use crate::wire::{
    fhex, fi64, field_hex, field_i64, field_text, field_u32, field_u64, fu32, fu64, list_spec,
    marker_spec, parse_marker, split_list, split_summary, split_tuple, summary_parts, tuple_spec,
    Marker,
};

verus! {

/// The endpoints of a socket.
#[derive(Clone, Copy, Debug, PartialEq, Eq)]
pub enum Connection {
    Ipv4 { src_host: [u8; 4], src_port: u64, dst_host: [u8; 4], dst_port: u64 },
    Ipv6 { src_host: [u16; 8], src_port: u64, dst_host: [u16; 8], dst_port: u64 },
    Unix { src_address: u64, dst_address: u64 },
}

/// A file registered on an epoll instance.
#[derive(Debug, PartialEq, Eq, Clone)]
pub enum TargetFile {
    AnonInode { name: Vec<u8>, address: u64 },
    Inode { device: u32, inode_id: u64 },
    Epoll { address: u64 },
}

/// A target file as plain values: (kind, anonymous-inode name, first number, second number).
pub type TargetView = (u8, Seq<u8>, u64, u64);

pub open spec fn target_view(t: TargetFile) -> TargetView {
    match t {
        TargetFile::AnonInode { name, address } => (0, name@, address, 0),
        TargetFile::Inode { device, inode_id } => (1, Seq::empty(), device as u64, inode_id),
        TargetFile::Epoll { address } => (2, Seq::empty(), address, 0),
    }
}

/// Whether two target files are the same file.
pub fn same_target(a: &TargetFile, b: &TargetFile) -> (r: bool)
    ensures
        r == (target_view(*a) == target_view(*b)),
{
    match (a, b) {
        (
            TargetFile::AnonInode { name: n1, address: a1 },
            TargetFile::AnonInode { name: n2, address: a2 },
        ) => *a1 == *a2 && bytes_eq(n1.as_slice(), n2.as_slice()),
        (
            TargetFile::Inode { device: d1, inode_id: i1 },
            TargetFile::Inode { device: d2, inode_id: i2 },
        ) => *d1 == *d2 && *i1 == *i2,
        (TargetFile::Epoll { address: a1 }, TargetFile::Epoll { address: a2 }) => *a1 == *a2,
        _ => false,
    }
}

/// A copy of a target file.
pub fn copy_target(t: &TargetFile) -> (r: TargetFile)
    ensures
        target_view(r) == target_view(*t),
{
    match t {
        TargetFile::AnonInode { name, address } => TargetFile::AnonInode {
            name: crate::futex::copy_bytes(name),
            address: *address,
        },
        TargetFile::Inode { device, inode_id } => TargetFile::Inode {
            device: *device,
            inode_id: *inode_id,
        },
        TargetFile::Epoll { address } => TargetFile::Epoll { address: *address },
    }
}

/// A connection as plain values.
pub enum ConnView {
    V4 { src: Seq<u8>, src_port: u64, dst: Seq<u8>, dst_port: u64 },
    V6 { src: Seq<u16>, src_port: u64, dst: Seq<u16>, dst_port: u64 },
    Unix { src: u64, dst: u64 },
}

pub open spec fn conn_view(c: Connection) -> ConnView {
    match c {
        Connection::Ipv4 { src_host, src_port, dst_host, dst_port } => ConnView::V4 {
            src: src_host@,
            src_port,
            dst: dst_host@,
            dst_port,
        },
        Connection::Ipv6 { src_host, src_port, dst_host, dst_port } => ConnView::V6 {
            src: src_host@,
            src_port,
            dst: dst_host@,
            dst_port,
        },
        Connection::Unix { src_address, dst_address } => ConnView::Unix {
            src: src_address,
            dst: dst_address,
        },
    }
}

/// A dotted-quad IPv4 address: four decimal octets.
pub open spec fn ipv4_spec(s: Seq<u8>) -> Option<Seq<u8>> {
    let p = split_spec(s, 46);
    if p.len() == 4 && dec_fits(p[0], 255) && dec_fits(p[1], 255) && dec_fits(p[2], 255)
        && dec_fits(p[3], 255) {
        Some(seq![dec_value(p[0]) as u8, dec_value(p[1]) as u8, dec_value(p[2]) as u8, dec_value(p[3]) as u8])
    } else {
        None
    }
}

/// A group of an IPv6 address: one to four hexadecimal digits.
pub open spec fn hex16(g: Seq<u8>) -> bool {
    1 <= g.len() <= 4 && all_hex(g)
}

pub open spec fn groups_ok(g: Seq<Seq<u8>>) -> bool {
    forall|k: int| 0 <= k < g.len() ==> hex16(#[trigger] g[k])
}

pub open spec fn group_values(g: Seq<Seq<u8>>) -> Seq<u16> {
    Seq::new(g.len(), |k: int| hex_value(g[k]) as u16)
}

/// The groups of one side of an IPv6 address around `::` (none when the side is empty).
pub open spec fn side_groups(s: Seq<u8>) -> Seq<Seq<u8>> {
    if s.len() == 0 {
        Seq::empty()
    } else {
        split_spec(s, 58)
    }
}

/// Index of the first `::` of `s` at or after `i`, or -1.
pub open spec fn find_double_colon(s: Seq<u8>, i: int) -> int
    decreases s.len() - i,
{
    if i < 0 || i + 1 >= s.len() {
        -1
    } else if s[i] == 58 && s[i + 1] == 58 {
        i
    } else {
        find_double_colon(s, i + 1)
    }
}

/// An IPv6 address: eight colon-separated hexadecimal groups, or fewer with one `::`
/// standing for the missing zero groups.
pub open spec fn ipv6_plain_spec(s: Seq<u8>) -> Option<Seq<u16>> {
    let p = find_double_colon(s, 0);
    if p < 0 {
        let g = split_spec(s, 58);
        if g.len() == 8 && groups_ok(g) {
            Some(group_values(g))
        } else {
            None
        }
    } else {
        let l = side_groups(s.subrange(0, p));
        let r = side_groups(s.subrange(p + 2, s.len() as int));
        if groups_ok(l) && groups_ok(r) && l.len() + r.len() <= 7 {
            Some(group_values(l) + Seq::new((8 - l.len() - r.len()) as nat, |k: int| 0u16) + group_values(r))
        } else {
            None
        }
    }
}

/// Index of the last `:` of `s` below `n`, or -1.
pub open spec fn find_last_colon(s: Seq<u8>, n: int) -> int
    decreases n,
{
    if n <= 0 {
        -1
    } else if s[n - 1] == 58 {
        n - 1
    } else {
        find_last_colon(s, n - 1)
    }
}

/// `s` holds a `.`.
pub open spec fn has_dot(s: Seq<u8>) -> bool {
    exists|i: int| 0 <= i < s.len() && s[i] == 46
}

/// An IPv6 address, either plain or ending in an embedded dotted-quad IPv4 address (as in
/// `::ffff:127.0.0.1`), which stands for the last two groups.
pub open spec fn ipv6_spec(s: Seq<u8>) -> Option<Seq<u16>> {
    if has_dot(s) {
        let q = find_last_colon(s, s.len() as int);
        if q < 0 {
            None
        } else {
            match (ipv6_plain_spec(s.subrange(0, q + 1) + seq![48u8, 58, 48]), ipv4_spec(s.subrange(q + 1, s.len() as int))) {
                (Some(g), Some(o)) => Some(g.update(6, (o[0] as int * 256 + o[1]) as u16).update(7, (o[2] as int * 256 + o[3]) as u16)),
                _ => None,
            }
        }
    } else {
        ipv6_plain_spec(s)
    }
}

/// The connection described by the fields of `f` from index `j`: a family word, then the
/// addresses and ports it calls for.
pub open spec fn conn_spec(f: Seq<Seq<u8>>, j: int) -> Option<ConnView> {
    if 0 <= j < f.len() && f[j] == lit_af_inet() {
        if j + 4 < f.len() && ipv4_spec(f[j + 1]) is Some && fu64(f, j + 2) is Some && ipv4_spec(f[j + 3]) is Some && fu64(f, j + 4) is Some {
            Some(ConnView::V4 {
                src: ipv4_spec(f[j + 1]).unwrap(),
                src_port: fu64(f, j + 2).unwrap(),
                dst: ipv4_spec(f[j + 3]).unwrap(),
                dst_port: fu64(f, j + 4).unwrap(),
            })
        } else {
            None
        }
    } else if 0 <= j < f.len() && f[j] == lit_af_inet6() {
        if j + 4 < f.len() && ipv6_spec(f[j + 1]) is Some && fu64(f, j + 2) is Some && ipv6_spec(f[j + 3]) is Some && fu64(f, j + 4) is Some {
            Some(ConnView::V6 {
                src: ipv6_spec(f[j + 1]).unwrap(),
                src_port: fu64(f, j + 2).unwrap(),
                dst: ipv6_spec(f[j + 3]).unwrap(),
                dst_port: fu64(f, j + 4).unwrap(),
            })
        } else {
            None
        }
    } else if 0 <= j < f.len() && f[j] == lit_af_unix() {
        if fhex(f, j + 1) is Some && fhex(f, j + 2) is Some {
            Some(ConnView::Unix { src: fhex(f, j + 1).unwrap(), dst: fhex(f, j + 2).unwrap() })
        } else {
            None
        }
    } else {
        None
    }
}

/// Parses a dotted-quad IPv4 address.
pub fn parse_ipv4(s: &[u8]) -> (r: Option<[u8; 4]>)
    ensures
        match r {
            Some(h) => ipv4_spec(s@) == Some(h@),
            None => ipv4_spec(s@) is None,
        },
{
    let p = split(s, 46);
    assert(views(p@).len() == p@.len());
    if p.len() != 4 {
        return None;
    }
    let mut o: [u8; 4] = [0u8; 4];
    let mut k: usize = 0;
    while k < 4
        invariant
            0 <= k <= 4,
            p@.len() == 4,
            views(p@) == split_spec(s@, 46),
            forall|j: int| 0 <= j < k ==> dec_fits(#[trigger] views(p@)[j], 255) && o@[j] == dec_value(views(p@)[j]),
        decreases 4 - k,
    {
        assert(views(p@)[k as int] == p@[k as int]@);
        match crate::text::parse_dec(p[k].as_slice()) {
            Some(v) => if v <= 255 {
                o[k] = v as u8;
            } else {
                return None;
            },
            None => return None,
        }
        k = k + 1;
    }
    let ghost v = views(p@);
    assert(o@ =~= seq![dec_value(v[0]) as u8, dec_value(v[1]) as u8, dec_value(v[2]) as u8, dec_value(v[3]) as u8]);
    Some(o)
}

/// Parses one IPv6 group of one to four hexadecimal digits.
fn parse_group(g: &[u8]) -> (r: Option<u16>)
    ensures
        match r {
            Some(v) => hex16(g@) && v == hex_value(g@),
            None => !hex16(g@),
        },
{
    if g.len() < 1 || g.len() > 4 {
        return None;
    }
    let mut acc: u32 = 0;
    let mut i: usize = 0;
    while i < g.len()
        invariant
            0 <= i <= g.len() <= 4,
            all_hex(g@.subrange(0, i as int)),
            acc == hex_value(g@.subrange(0, i as int)),
            acc < (if i == 0 { 1int } else if i == 1 { 16int } else if i == 2 { 256int } else if i == 3 { 4096int } else { 65536int }),
        decreases g.len() - i,
    {
        let b = g[i];
        assert(g@.subrange(0, i + 1).drop_last() =~= g@.subrange(0, i as int));
        assert(g@.subrange(0, i + 1).last() == g@[i as int]);
        let d: u32 = if 48 <= b && b <= 57 {
            (b - 48) as u32
        } else if 97 <= b && b <= 102 {
            (b - 87) as u32
        } else if 65 <= b && b <= 70 {
            (b - 55) as u32
        } else {
            assert(crate::text::hex_digit(g@[i as int]) < 0);
            assert(!all_hex(g@));
            return None;
        };
        acc = acc * 16 + d;
        i = i + 1;
        assert(all_hex(g@.subrange(0, i as int))) by {
            assert forall|k: int| 0 <= k < i implies crate::text::hex_digit(#[trigger] g@.subrange(0, i as int)[k]) >= 0 by {
                if k < i - 1 {
                    assert(g@.subrange(0, i as int)[k] == g@.subrange(0, i - 1)[k]);
                }
            }
        }
    }
    assert(g@.subrange(0, g@.len() as int) =~= g@);
    Some(acc as u16)
}

/// Parses the groups of one side of an IPv6 address around `::`.
fn parse_side(s: &[u8]) -> (r: Option<Vec<u16>>)
    ensures
        match r {
            Some(v) => groups_ok(side_groups(s@)) && v@ == group_values(side_groups(s@)),
            None => !groups_ok(side_groups(s@)),
        },
{
    if s.len() == 0 {
        let v: Vec<u16> = Vec::new();
        assert(v@ =~= group_values(side_groups(s@)));
        return Some(v);
    }
    let g = split(s, 58);
    let ghost gs = split_spec(s@, 58);
    assert(views(g@).len() == g@.len());
    let mut out: Vec<u16> = Vec::new();
    let mut k: usize = 0;
    while k < g.len()
        invariant
            0 <= k <= g@.len(),
            views(g@) == gs,
            gs == side_groups(s@),
            out@.len() == k,
            forall|j: int| 0 <= j < k ==> hex16(#[trigger] gs[j]) && out@[j] == hex_value(gs[j]) as u16,
        decreases g@.len() - k,
    {
        assert(views(g@)[k as int] == g@[k as int]@);
        match parse_group(g[k].as_slice()) {
            Some(v) => out.push(v),
            None => return None,
        }
        k = k + 1;
    }
    assert(out@ =~= group_values(gs));
    Some(out)
}

/// Parses an IPv6 address, with at most one `::`.
fn parse_ipv6_plain(s: &[u8]) -> (r: Option<[u16; 8]>)
    ensures
        match r {
            Some(h) => ipv6_plain_spec(s@) == Some(h@),
            None => ipv6_plain_spec(s@) is None,
        },
{
    let mut p: usize = 0;
    while p < s.len() && p + 1 < s.len() && !(s[p] == 58 && s[p + 1] == 58)
        invariant
            0 <= p,
            p <= s.len(),
            find_double_colon(s@, 0) == find_double_colon(s@, p as int),
        decreases s.len() - p,
    {
        p = p + 1;
    }
    let mut h: [u16; 8] = [0u16; 8];
    if p >= s.len() || p + 1 >= s.len() {
        assert(find_double_colon(s@, 0) < 0);
        let g = split(s, 58);
        let ghost gs = split_spec(s@, 58);
        assert(views(g@).len() == g@.len());
        if g.len() != 8 {
            return None;
        }
        let mut k: usize = 0;
        while k < 8
            invariant
                0 <= k <= 8,
                g@.len() == 8,
                views(g@) == gs,
                gs == split_spec(s@, 58),
                find_double_colon(s@, 0) < 0,
                forall|j: int| 0 <= j < k ==> hex16(#[trigger] gs[j]) && h@[j] == hex_value(gs[j]) as u16,
            decreases 8 - k,
        {
            assert(views(g@)[k as int] == g@[k as int]@);
            match parse_group(g[k].as_slice()) {
                Some(v) => h[k] = v,
                None => {
                    assert(!hex16(gs[k as int]));
                    assert(!groups_ok(gs));
                    return None;
                },
            }
            k = k + 1;
        }
        assert(h@ =~= group_values(gs));
        return Some(h);
    }
    assert(find_double_colon(s@, 0) == p);
    let left = subslice(s, 0, p);
    let right = subslice(s, p + 2, s.len());
    let l = match parse_side(left.as_slice()) {
        Some(v) => v,
        None => return None,
    };
    let r = match parse_side(right.as_slice()) {
        Some(v) => v,
        None => return None,
    };
    if l.len() > 7 || r.len() > 7 - l.len() {
        return None;
    }
    let zeros = 8 - l.len() - r.len();
    let mut k: usize = 0;
    while k < l.len()
        invariant
            0 <= k <= l@.len(),
            l@.len() + r@.len() <= 7,
            forall|j: int| 0 <= j < k ==> h@[j] == l@[j],
            forall|j: int| k <= j < 8 ==> h@[j] == 0,
        decreases l@.len() - k,
    {
        h[k] = l[k];
        k = k + 1;
    }
    let mut m: usize = 0;
    while m < r.len()
        invariant
            0 <= m <= r@.len(),
            l@.len() + r@.len() <= 7,
            zeros == 8 - l@.len() - r@.len(),
            forall|j: int| 0 <= j < l@.len() ==> h@[j] == l@[j],
            forall|j: int| l@.len() <= j < l@.len() + zeros ==> h@[j] == 0,
            forall|j: int| 0 <= j < m ==> h@[l@.len() + zeros + j] == r@[j],
            forall|j: int| l@.len() + zeros + m <= j < 8 ==> h@[j] == 0,
        decreases r@.len() - m,
    {
        h[l.len() + zeros + m] = r[m];
        m = m + 1;
    }
    assert(h@ =~= l@ + Seq::new(zeros as nat, |k: int| 0u16) + r@);
    Some(h)
}

/// Parses an IPv6 address, with at most one `::` and possibly an embedded IPv4 tail.
pub fn parse_ipv6(s: &[u8]) -> (r: Option<[u16; 8]>)
    ensures
        match r {
            Some(h) => ipv6_spec(s@) == Some(h@),
            None => ipv6_spec(s@) is None,
        },
{
    let mut dot = false;
    let mut i: usize = 0;
    while i < s.len()
        invariant
            0 <= i <= s.len(),
            dot == exists|k: int| 0 <= k < i && s@[k] == 46,
        decreases s.len() - i,
    {
        if s[i] == 46 {
            dot = true;
        }
        i = i + 1;
    }
    assert(dot == has_dot(s@));
    if !dot {
        return parse_ipv6_plain(s);
    }
    let mut n: usize = s.len();
    while n > 0 && s[n - 1] != 58
        invariant
            0 <= n <= s.len(),
            find_last_colon(s@, s@.len() as int) == find_last_colon(s@, n as int),
        decreases n,
    {
        n = n - 1;
    }
    if n == 0 {
        return None;
    }
    let q = n - 1;
    assert(find_last_colon(s@, s@.len() as int) == q);
    let mut head = subslice(s, 0, q + 1);
    head.push(48);
    head.push(58);
    head.push(48);
    assert(head@ =~= s@.subrange(0, q + 1) + seq![48u8, 58, 48]);
    let tail = subslice(s, q + 1, s.len());
    let g = match parse_ipv6_plain(head.as_slice()) {
        Some(g) => g,
        None => return None,
    };
    let o = match parse_ipv4(tail.as_slice()) {
        Some(o) => o,
        None => return None,
    };
    let mut h = g;
    h[6] = (o[0] as u16) * 256 + (o[1] as u16);
    h[7] = (o[2] as u16) * 256 + (o[3] as u16);
    assert(h@ =~= g@.update(6, (o@[0] as int * 256 + o@[1]) as u16).update(7, (o@[2] as int * 256 + o@[3]) as u16));
    Some(h)
}

/// Reads the connection of fields `f` from index `j`.
pub fn parse_conn(f: &Vec<Vec<u8>>, j: usize) -> (r: Option<Connection>)
    ensures
        match r {
            Some(c) => conn_spec(views(f@), j as int) == Some(conn_view(c)),
            None => conn_spec(views(f@), j as int) is None,
        },
{
    let ghost v = views(f@);
    assert(v.len() == f@.len());
    if j >= f.len() {
        return None;
    }
    assert(v[j as int] == f@[j as int]@);
    let fam = f[j].as_slice();
    if is_af_inet(fam) {
        if j >= usize::MAX - 4 || j + 4 >= f.len() {
            return None;
        }
        assert(v[j + 1] == f@[j + 1]@ && v[j + 3] == f@[j + 3]@);
        let src = match parse_ipv4(f[j + 1].as_slice()) { Some(x) => x, None => return None };
        let sp = match field_u64(f, j + 2) { Some(x) => x, None => return None };
        let dst = match parse_ipv4(f[j + 3].as_slice()) { Some(x) => x, None => return None };
        let dp = match field_u64(f, j + 4) { Some(x) => x, None => return None };
        Some(Connection::Ipv4 { src_host: src, src_port: sp, dst_host: dst, dst_port: dp })
    } else if is_af_inet6(fam) {
        if j >= usize::MAX - 4 || j + 4 >= f.len() {
            return None;
        }
        assert(v[j + 1] == f@[j + 1]@ && v[j + 3] == f@[j + 3]@);
        let src = match parse_ipv6(f[j + 1].as_slice()) { Some(x) => x, None => return None };
        let sp = match field_u64(f, j + 2) { Some(x) => x, None => return None };
        let dst = match parse_ipv6(f[j + 3].as_slice()) { Some(x) => x, None => return None };
        let dp = match field_u64(f, j + 4) { Some(x) => x, None => return None };
        Some(Connection::Ipv6 { src_host: src, src_port: sp, dst_host: dst, dst_port: dp })
    } else if is_af_unix(fam) {
        if j >= usize::MAX - 2 {
            return None;
        }
        let a = match field_hex(f, j + 1) { Some(x) => x, None => return None };
        let b = match field_hex(f, j + 2) { Some(x) => x, None => return None };
        Some(Connection::Unix { src_address: a, dst_address: b })
    } else {
        None
    }
}

/// One line of the IPC tracing script, typed.
#[derive(Debug, Clone)]
pub enum IpcBpfEvent {
    NoOp,
    NewProcess { comm: Vec<u8>, pid: u64 },
    NewSocketMap { fs_type: Vec<u8>, sb_id: u32, inode_id: u64, conn: Connection },
    AcceptStart,
    AcceptEnd { comm: Vec<u8>, tid: u64, fs_type: Vec<u8>, sb_id: u32, inode_id: u64, conn: Connection },
    ConnectStart,
    ConnectEnd { comm: Vec<u8>, tid: u64, fs_type: Vec<u8>, sb_id: u32, inode_id: u64, conn: Connection },
    UnhandledFileMode { comm: Vec<u8>, tid: u64, fs: Vec<u8>, sb_id: u32, inode_id: u64, mode: u64 },
    UnhandledSockFam { comm: Vec<u8>, tid: u64, fs: Vec<u8>, sb_id: u32, inode_id: u64, family: u32 },
    EpollItemAdd {
        comm: Vec<u8>,
        tid: u64,
        event_poll: u64,
        fs: Vec<u8>,
        target_file: TargetFile,
        ns_since_boot: u64,
        contrib_snapshot: u64,
    },
    EpollItemRemove {
        comm: Vec<u8>,
        tid: u64,
        event_poll: u64,
        fs: Vec<u8>,
        target_file: TargetFile,
        ns_since_boot: u64,
        contrib_snapshot: u64,
    },
    EpollItem {
        comm: Vec<u8>,
        tid: u64,
        event_poll: u64,
        fs: Vec<u8>,
        target_file: TargetFile,
        ns_since_boot: u64,
        contrib_snapshot: u64,
    },
    MapStatsStart,
    SampleInstant { ns_since_boot: u64 },
    MapStatsEnd,
    InodeMapCached { comm: Vec<u8>, tid: u64, fs_type: Vec<u8>, sb_id: u32, inode_id: i64, count: u64, total_ns: u64 },
    InodeMapPending { comm: Vec<u8>, tid: u64, fs_type: Vec<u8>, sb_id: u32, inode_id: i64, ns_since_boot: u64 },
    EpollMapCached { event_poll: u64, total_ns: u64 },
    EpollMapPending { event_poll: u64, ns_since_boot: u64 },
    Unexpected { data: Vec<u8> },
}

/// The fields of an `AcceptEnd` / `ConnectEnd` line are well formed.
pub open spec fn socket_end_ok(f: Seq<Seq<u8>>) -> bool {
    f.len() >= 7 && fu64(f, 2) is Some && fu32(f, 4) is Some && fu64(f, 5) is Some && conn_spec(f, 6) is Some
}

pub open spec fn socket_end_matches(f: Seq<Seq<u8>>, comm: Vec<u8>, tid: u64, fs_type: Vec<u8>, sb_id: u32, inode_id: u64, conn: Connection) -> bool {
    comm@ == f[1] && tid == fu64(f, 2).unwrap() && fs_type@ == f[3] && sb_id == fu32(f, 4).unwrap()
        && inode_id == fu64(f, 5).unwrap() && conn_view(conn) == conn_spec(f, 6).unwrap()
}

/// The fields of an epoll item line are well formed; `anon_inodefs` targets carry a name
/// and a hexadecimal address, other targets a device and an inode number.
pub open spec fn epoll_item_ok(f: Seq<Seq<u8>>) -> bool {
    &&& f.len() >= 9
    &&& fu64(f, 2) is Some
    &&& fhex(f, 3) is Some
    &&& if f[4] == lit_anon_inodefs() {
        fhex(f, 6) is Some
    } else {
        fu32(f, 5) is Some && fu64(f, 6) is Some
    }
    &&& fu64(f, 7) is Some
    &&& fu64(f, 8) is Some
}

pub open spec fn item_target(f: Seq<Seq<u8>>) -> TargetView {
    if f[4] == lit_anon_inodefs() {
        (0, f[5], fhex(f, 6).unwrap(), 0)
    } else {
        (1, Seq::empty(), fu32(f, 5).unwrap() as u64, fu64(f, 6).unwrap())
    }
}

pub open spec fn epoll_item_matches(f: Seq<Seq<u8>>, comm: Vec<u8>, tid: u64, event_poll: u64, fs: Vec<u8>, target_file: TargetFile, ns_since_boot: u64, contrib_snapshot: u64) -> bool {
    comm@ == f[1] && tid == fu64(f, 2).unwrap() && event_poll == fhex(f, 3).unwrap() && fs@ == f[4]
        && target_view(target_file) == item_target(f) && ns_since_boot == fu64(f, 7).unwrap()
        && contrib_snapshot == fu64(f, 8).unwrap()
}

/// What a trace line of the IPC script denotes: tab-separated fields, the first (trimmed)
/// being the tag.
pub open spec fn ipc_trace_denotes(s: Seq<u8>, r: Option<IpcBpfEvent>) -> bool {
    let f = split_spec(s, 9);
    let tag = trim_spec(f[0]);
    if tag == lit_accept_start() {
        r matches Some(IpcBpfEvent::AcceptStart)
    } else if tag == lit_connect_start() {
        r matches Some(IpcBpfEvent::ConnectStart)
    } else if tag == lit_accept_end() {
        if socket_end_ok(f) {
            match r {
                Some(IpcBpfEvent::AcceptEnd { comm, tid, fs_type, sb_id, inode_id, conn }) => socket_end_matches(f, comm, tid, fs_type, sb_id, inode_id, conn),
                _ => false,
            }
        } else {
            r is None
        }
    } else if tag == lit_connect_end() {
        if socket_end_ok(f) {
            match r {
                Some(IpcBpfEvent::ConnectEnd { comm, tid, fs_type, sb_id, inode_id, conn }) => socket_end_matches(f, comm, tid, fs_type, sb_id, inode_id, conn),
                _ => false,
            }
        } else {
            r is None
        }
    } else if tag == lit_epoll_add() {
        if epoll_item_ok(f) {
            match r {
                Some(IpcBpfEvent::EpollItemAdd { comm, tid, event_poll, fs, target_file, ns_since_boot, contrib_snapshot }) => epoll_item_matches(f, comm, tid, event_poll, fs, target_file, ns_since_boot, contrib_snapshot),
                _ => false,
            }
        } else {
            r is None
        }
    } else if tag == lit_epoll_remove() {
        if epoll_item_ok(f) {
            match r {
                Some(IpcBpfEvent::EpollItemRemove { comm, tid, event_poll, fs, target_file, ns_since_boot, contrib_snapshot }) => epoll_item_matches(f, comm, tid, event_poll, fs, target_file, ns_since_boot, contrib_snapshot),
                _ => false,
            }
        } else {
            r is None
        }
    } else if tag == lit_epi_poll() {
        if epoll_item_ok(f) {
            match r {
                Some(IpcBpfEvent::EpollItem { comm, tid, event_poll, fs, target_file, ns_since_boot, contrib_snapshot }) => epoll_item_matches(f, comm, tid, event_poll, fs, target_file, ns_since_boot, contrib_snapshot),
                _ => false,
            }
        } else {
            r is None
        }
    } else if tag == lit_new_socket_map() {
        if f.len() >= 5 && fu32(f, 2) is Some && fu64(f, 3) is Some && conn_spec(f, 4) is Some {
            match r {
                Some(IpcBpfEvent::NewSocketMap { fs_type, sb_id, inode_id, conn }) => fs_type@ == f[1] && sb_id == fu32(f, 2).unwrap()
                    && inode_id == fu64(f, 3).unwrap() && conn_view(conn) == conn_spec(f, 4).unwrap(),
                _ => false,
            }
        } else {
            r is None
        }
    } else if tag == lit_new_process() {
        if f.len() >= 3 && fu64(f, 2) is Some {
            match r {
                Some(IpcBpfEvent::NewProcess { comm, pid }) => comm@ == f[1] && pid == fu64(f, 2).unwrap(),
                _ => false,
            }
        } else {
            r is None
        }
    } else if tag == lit_sample_instant() {
        if fu64(f, 1) is Some {
            r == Some(IpcBpfEvent::SampleInstant { ns_since_boot: fu64(f, 1).unwrap() })
        } else {
            r is None
        }
    } else if tag == lit_unhandled_file_mode() {
        if f.len() >= 7 && fu64(f, 2) is Some && fu32(f, 4) is Some && fu64(f, 5) is Some && fhex(f, 6) is Some {
            match r {
                Some(IpcBpfEvent::UnhandledFileMode { comm, tid, fs, sb_id, inode_id, mode }) => comm@ == f[1] && tid == fu64(f, 2).unwrap()
                    && fs@ == f[3] && sb_id == fu32(f, 4).unwrap() && inode_id == fu64(f, 5).unwrap() && mode == fhex(f, 6).unwrap(),
                _ => false,
            }
        } else {
            r is None
        }
    } else if tag == lit_unhandled_sock_fam() {
        if f.len() >= 7 && fu64(f, 2) is Some && fu32(f, 4) is Some && fu64(f, 5) is Some && fu32(f, 6) is Some {
            match r {
                Some(IpcBpfEvent::UnhandledSockFam { comm, tid, fs, sb_id, inode_id, family }) => comm@ == f[1] && tid == fu64(f, 2).unwrap()
                    && fs@ == f[3] && sb_id == fu32(f, 4).unwrap() && inode_id == fu64(f, 5).unwrap() && family == fu32(f, 6).unwrap(),
                _ => false,
            }
        } else {
            r is None
        }
    } else {
        r is None
    }
}

/// Reads the fields of an `AcceptEnd` / `ConnectEnd` line.
fn parse_socket_end(f: &Vec<Vec<u8>>) -> (r: Option<(Vec<u8>, u64, Vec<u8>, u32, u64, Connection)>)
    ensures
        match r {
            Some((comm, tid, fs_type, sb_id, inode_id, conn)) => socket_end_ok(views(f@)) && socket_end_matches(views(f@), comm, tid, fs_type, sb_id, inode_id, conn),
            None => !socket_end_ok(views(f@)),
        },
{
    assert(views(f@).len() == f@.len());
    if f.len() < 7 {
        return None;
    }
    let comm = match field_text(f, 1) { Some(x) => x, None => return None };
    let tid = match field_u64(f, 2) { Some(x) => x, None => return None };
    let fs_type = match field_text(f, 3) { Some(x) => x, None => return None };
    let sb_id = match field_u32(f, 4) { Some(x) => x, None => return None };
    let inode_id = match field_u64(f, 5) { Some(x) => x, None => return None };
    let conn = match parse_conn(f, 6) { Some(x) => x, None => return None };
    Some((comm, tid, fs_type, sb_id, inode_id, conn))
}

/// Reads the fields of an epoll item line.
fn parse_epoll_item(f: &Vec<Vec<u8>>) -> (r: Option<(Vec<u8>, u64, u64, Vec<u8>, TargetFile, u64, u64)>)
    ensures
        match r {
            Some((comm, tid, event_poll, fs, target_file, ns, contribution)) => epoll_item_ok(views(f@)) && epoll_item_matches(views(f@), comm, tid, event_poll, fs, target_file, ns, contribution),
            None => !epoll_item_ok(views(f@)),
        },
{
    let ghost v = views(f@);
    assert(v.len() == f@.len());
    if f.len() < 9 {
        return None;
    }
    let comm = match field_text(f, 1) { Some(x) => x, None => return None };
    let tid = match field_u64(f, 2) { Some(x) => x, None => return None };
    let event_poll = match field_hex(f, 3) { Some(x) => x, None => return None };
    let fs = match field_text(f, 4) { Some(x) => x, None => return None };
    let target_file = if is_anon_inodefs(fs.as_slice()) {
        let name = match field_text(f, 5) { Some(x) => x, None => return None };
        let address = match field_hex(f, 6) { Some(x) => x, None => return None };
        TargetFile::AnonInode { name, address }
    } else {
        let device = match field_u32(f, 5) { Some(x) => x, None => return None };
        let inode_id = match field_u64(f, 6) { Some(x) => x, None => return None };
        TargetFile::Inode { device, inode_id }
    };
    let ns = match field_u64(f, 7) { Some(x) => x, None => return None };
    let contribution = match field_u64(f, 8) { Some(x) => x, None => return None };
    Some((comm, tid, event_poll, fs, target_file, ns, contribution))
}

impl IpcBpfEvent {
    /// Parses a trace line.
    pub fn from_trace_string(event_string: &[u8]) -> (r: Option<Self>)
        ensures
            ipc_trace_denotes(event_string@, r),
    {
        let f = split(event_string, 9);
        let ghost v = views(f@);
        assert(v[0] == f@[0]@);
        let tag = trim(f[0].as_slice());
        let t = tag.as_slice();
        if is_accept_start(t) {
            Some(IpcBpfEvent::AcceptStart)
        } else if is_connect_start(t) {
            Some(IpcBpfEvent::ConnectStart)
        } else if is_accept_end(t) {
            match parse_socket_end(&f) {
                Some((comm, tid, fs_type, sb_id, inode_id, conn)) => Some(IpcBpfEvent::AcceptEnd { comm, tid, fs_type, sb_id, inode_id, conn }),
                None => None,
            }
        } else if is_connect_end(t) {
            match parse_socket_end(&f) {
                Some((comm, tid, fs_type, sb_id, inode_id, conn)) => Some(IpcBpfEvent::ConnectEnd { comm, tid, fs_type, sb_id, inode_id, conn }),
                None => None,
            }
        } else if is_epoll_add(t) {
            match parse_epoll_item(&f) {
                Some((comm, tid, event_poll, fs, target_file, ns_since_boot, contrib_snapshot)) => Some(IpcBpfEvent::EpollItemAdd { comm, tid, event_poll, fs, target_file, ns_since_boot, contrib_snapshot }),
                None => None,
            }
        } else if is_epoll_remove(t) {
            match parse_epoll_item(&f) {
                Some((comm, tid, event_poll, fs, target_file, ns_since_boot, contrib_snapshot)) => Some(IpcBpfEvent::EpollItemRemove { comm, tid, event_poll, fs, target_file, ns_since_boot, contrib_snapshot }),
                None => None,
            }
        } else if is_epi_poll(t) {
            match parse_epoll_item(&f) {
                Some((comm, tid, event_poll, fs, target_file, ns_since_boot, contrib_snapshot)) => Some(IpcBpfEvent::EpollItem { comm, tid, event_poll, fs, target_file, ns_since_boot, contrib_snapshot }),
                None => None,
            }
        } else if is_new_socket_map(t) {
            if f.len() < 5 {
                return None;
            }
            let fs_type = match field_text(&f, 1) { Some(x) => x, None => return None };
            let sb_id = match field_u32(&f, 2) { Some(x) => x, None => return None };
            let inode_id = match field_u64(&f, 3) { Some(x) => x, None => return None };
            let conn = match parse_conn(&f, 4) { Some(x) => x, None => return None };
            Some(IpcBpfEvent::NewSocketMap { fs_type, sb_id, inode_id, conn })
        } else if is_new_process(t) {
            if f.len() < 3 {
                return None;
            }
            let comm = match field_text(&f, 1) { Some(x) => x, None => return None };
            let pid = match field_u64(&f, 2) { Some(x) => x, None => return None };
            Some(IpcBpfEvent::NewProcess { comm, pid })
        } else if is_sample_instant(t) {
            match field_u64(&f, 1) {
                Some(ns_since_boot) => Some(IpcBpfEvent::SampleInstant { ns_since_boot }),
                None => None,
            }
        } else if is_unhandled_file_mode(t) {
            if f.len() < 7 {
                return None;
            }
            let comm = match field_text(&f, 1) { Some(x) => x, None => return None };
            let tid = match field_u64(&f, 2) { Some(x) => x, None => return None };
            let fs = match field_text(&f, 3) { Some(x) => x, None => return None };
            let sb_id = match field_u32(&f, 4) { Some(x) => x, None => return None };
            let inode_id = match field_u64(&f, 5) { Some(x) => x, None => return None };
            let mode = match field_hex(&f, 6) { Some(x) => x, None => return None };
            Some(IpcBpfEvent::UnhandledFileMode { comm, tid, fs, sb_id, inode_id, mode })
        } else if is_unhandled_sock_fam(t) {
            if f.len() < 7 {
                return None;
            }
            let comm = match field_text(&f, 1) { Some(x) => x, None => return None };
            let tid = match field_u64(&f, 2) { Some(x) => x, None => return None };
            let fs = match field_text(&f, 3) { Some(x) => x, None => return None };
            let sb_id = match field_u32(&f, 4) { Some(x) => x, None => return None };
            let inode_id = match field_u64(&f, 5) { Some(x) => x, None => return None };
            let family = match field_u32(&f, 6) { Some(x) => x, None => return None };
            Some(IpcBpfEvent::UnhandledSockFam { comm, tid, fs, sb_id, inode_id, family })
        } else {
            None
        }
    }
}

/// The key fields of an inode summary (`comm, tid, fs_type, sb_id, inode_id`) are well formed.
pub open spec fn inode_key_ok(k: Seq<Seq<u8>>) -> bool {
    k.len() >= 5 && fu64(k, 1) is Some && fu32(k, 3) is Some && fi64(k, 4) is Some
}

/// What a map-summary line of the IPC script denotes (`None`: it is malformed).
pub open spec fn ipc_summary_denotes(s: Seq<u8>, r: Option<IpcBpfEvent>) -> bool {
    match summary_parts(s) {
        None => r is None,
        Some((name, key, value)) => {
            let k = list_spec(key);
            if name == lit_inode_map() {
                match tuple_spec(value) {
                    Some(v) => if inode_key_ok(k) && fu64(v, 0) is Some && fu64(v, 1) is Some {
                        match r {
                            Some(IpcBpfEvent::InodeMapCached { comm, tid, fs_type, sb_id, inode_id, count, total_ns }) => comm@ == k[0]
                                && tid == fu64(k, 1).unwrap() && fs_type@ == trim_spec(k[2]) && sb_id == fu32(k, 3).unwrap()
                                && inode_id == fi64(k, 4).unwrap() && total_ns == fu64(v, 0).unwrap() && count == fu64(v, 1).unwrap(),
                            _ => false,
                        }
                    } else {
                        r is None
                    },
                    None => r is None,
                }
            } else if name == lit_inode_pending() {
                if inode_key_ok(k) && fu64(seq![value], 0) is Some {
                    match r {
                        Some(IpcBpfEvent::InodeMapPending { comm, tid, fs_type, sb_id, inode_id, ns_since_boot }) => comm@ == k[0]
                            && tid == fu64(k, 1).unwrap() && fs_type@ == trim_spec(k[2]) && sb_id == fu32(k, 3).unwrap()
                            && inode_id == fi64(k, 4).unwrap() && ns_since_boot == fu64(seq![value], 0).unwrap(),
                        _ => false,
                    }
                } else {
                    r is None
                }
            } else if name == lit_epoll_map() {
                if fhex(seq![key], 0) is Some && fu64(seq![value], 0) is Some {
                    r == Some(IpcBpfEvent::EpollMapCached { event_poll: fhex(seq![key], 0).unwrap(), total_ns: fu64(seq![value], 0).unwrap() })
                } else {
                    r is None
                }
            } else if name == lit_epoll_pending() {
                if fhex(seq![key], 0) is Some && fu64(seq![value], 0) is Some {
                    r == Some(IpcBpfEvent::EpollMapPending { event_poll: fhex(seq![key], 0).unwrap(), ns_since_boot: fu64(seq![value], 0).unwrap() })
                } else {
                    r is None
                }
            } else {
                r is None
            }
        },
    }
}

/// What a non-empty line of the IPC script denotes, by its leading characters.
pub open spec fn ipc_line_denotes(s: Seq<u8>, r: Option<IpcBpfEvent>) -> bool {
    if s.len() > 0 && s[0] == 64 {
        ipc_summary_denotes(s, r)
    } else if starts_with_spec(s, seq![61u8, 62]) {
        match marker_spec(s) {
            Some(Marker::Start) => r matches Some(IpcBpfEvent::MapStatsStart),
            Some(Marker::End) => r matches Some(IpcBpfEvent::MapStatsEnd),
            None => r is None,
        }
    } else {
        ipc_trace_denotes(s, r)
    }
}

/// The event a record of the IPC script yields: `NoOp` for an empty record, `Unexpected`
/// holding the record for one that does not parse.
pub open spec fn ipc_event_of(s: Seq<u8>, e: IpcBpfEvent) -> bool {
    if s.len() == 0 {
        e matches IpcBpfEvent::NoOp
    } else {
        ipc_line_denotes(s, Some(e)) || (ipc_line_denotes(s, None) && match e {
            IpcBpfEvent::Unexpected { data } => data@ == s,
            _ => false,
        })
    }
}

/// Reads a whole byte string as one field list.
fn single(s: &Vec<u8>) -> (r: Vec<Vec<u8>>)
    ensures
        views(r@) == seq![s@],
{
    let mut v: Vec<Vec<u8>> = Vec::new();
    v.push(crate::futex::copy_bytes(s));
    assert(views(v@) =~= seq![s@]);
    v
}

impl IpcBpfEvent {
    /// Parses a map-summary line.
    pub fn from_summary_stats_string(event_string: &[u8]) -> (r: Option<Self>)
        ensures
            ipc_summary_denotes(event_string@, r),
    {
        let (name, key, value) = match split_summary(event_string) {
            Some(p) => p,
            None => return None,
        };
        let k = split_list(key.as_slice());
        let n = name.as_slice();
        if is_inode_map(n) {
            let v = match split_tuple(value.as_slice()) {
                Some(v) => v,
                None => return None,
            };
            if k.len() < 5 {
                return None;
            }
            let comm = match field_text(&k, 0) { Some(x) => x, None => return None };
            let tid = match field_u64(&k, 1) { Some(x) => x, None => return None };
            assert(views(k@)[2] == k@[2]@);
            let fs_type = trim(k[2].as_slice());
            let sb_id = match field_u32(&k, 3) { Some(x) => x, None => return None };
            let inode_id = match field_i64(&k, 4) { Some(x) => x, None => return None };
            let total_ns = match field_u64(&v, 0) { Some(x) => x, None => return None };
            let count = match field_u64(&v, 1) { Some(x) => x, None => return None };
            Some(IpcBpfEvent::InodeMapCached { comm, tid, fs_type, sb_id, inode_id, count, total_ns })
        } else if is_inode_pending(n) {
            if k.len() < 5 {
                return None;
            }
            let comm = match field_text(&k, 0) { Some(x) => x, None => return None };
            let tid = match field_u64(&k, 1) { Some(x) => x, None => return None };
            assert(views(k@)[2] == k@[2]@);
            let fs_type = trim(k[2].as_slice());
            let sb_id = match field_u32(&k, 3) { Some(x) => x, None => return None };
            let inode_id = match field_i64(&k, 4) { Some(x) => x, None => return None };
            let ns_since_boot = match field_u64(&single(&value), 0) { Some(x) => x, None => return None };
            Some(IpcBpfEvent::InodeMapPending { comm, tid, fs_type, sb_id, inode_id, ns_since_boot })
        } else if is_epoll_map(n) {
            let event_poll = match field_hex(&single(&key), 0) { Some(x) => x, None => return None };
            let total_ns = match field_u64(&single(&value), 0) { Some(x) => x, None => return None };
            Some(IpcBpfEvent::EpollMapCached { event_poll, total_ns })
        } else if is_epoll_pending(n) {
            let event_poll = match field_hex(&single(&key), 0) { Some(x) => x, None => return None };
            let ns_since_boot = match field_u64(&single(&value), 0) { Some(x) => x, None => return None };
            Some(IpcBpfEvent::EpollMapPending { event_poll, ns_since_boot })
        } else {
            None
        }
    }

    /// Parses a frame-marker line.
    pub fn from_stats_closure_string(event_string: &[u8]) -> (r: Option<Self>)
        ensures
            match marker_spec(event_string@) {
                Some(Marker::Start) => r matches Some(IpcBpfEvent::MapStatsStart),
                Some(Marker::End) => r matches Some(IpcBpfEvent::MapStatsEnd),
                None => r is None,
            },
    {
        match parse_marker(event_string) {
            Some(Marker::Start) => Some(IpcBpfEvent::MapStatsStart),
            Some(Marker::End) => Some(IpcBpfEvent::MapStatsEnd),
            None => None,
        }
    }

    /// Parses a line, choosing the summary, marker or trace grammar by its leading characters.
    pub fn parse_line(event_string: &[u8]) -> (r: Option<Self>)
        ensures
            ipc_line_denotes(event_string@, r),
    {
        if event_string.len() > 0 && event_string[0] == 64 {
            Self::from_summary_stats_string(event_string)
        } else if starts_with(event_string, &[61u8, 62]) {
            Self::from_stats_closure_string(event_string)
        } else {
            Self::from_trace_string(event_string)
        }
    }

    /// The event of one record: `NoOp` when empty, `Unexpected` when it does not parse.
    pub fn from_bytes(value: Vec<u8>) -> (r: Self)
        ensures
            ipc_event_of(value@, r),
    {
        if value.len() == 0 {
            return IpcBpfEvent::NoOp;
        }
        match Self::parse_line(value.as_slice()) {
            Some(e) => e,
            None => IpcBpfEvent::Unexpected { data: value },
        }
    }
}

/// One IPC event, as routed to the accumulators.
#[derive(Debug, Clone)]
pub enum IpcEvent {
    NewProcess { comm: Vec<u8>, pid: u64 },
    NewSocketMap { fs_type: Vec<u8>, sb_id: u32, inode_id: u64, conn: Connection },
    AcceptEnd { comm: Vec<u8>, tid: u64, fs_type: Vec<u8>, sb_id: u32, inode_id: u64, conn: Connection },
    ConnectEnd { comm: Vec<u8>, tid: u64, fs_type: Vec<u8>, sb_id: u32, inode_id: u64, conn: Connection },
    EpollItemAdd {
        comm: Vec<u8>,
        tid: u64,
        event_poll: u64,
        fs: Vec<u8>,
        target_file: TargetFile,
        ns_since_boot: u64,
        contrib_snapshot: u64,
    },
    EpollItemRemove {
        comm: Vec<u8>,
        tid: u64,
        event_poll: u64,
        fs: Vec<u8>,
        target_file: TargetFile,
        ns_since_boot: u64,
        contrib_snapshot: u64,
    },
    EpollItem {
        comm: Vec<u8>,
        tid: u64,
        event_poll: u64,
        fs: Vec<u8>,
        target_file: TargetFile,
        ns_since_boot: u64,
        contrib_snapshot: u64,
    },
    EpollWait { event_poll: u64, sample_instant_ns: u64, total_interval_wait_ns: u64 },
    InodeWait {
        comm: Vec<u8>,
        tid: u64,
        fs_type: Vec<u8>,
        sb_id: u32,
        inode_id: i64,
        sample_instant_ns: u64,
        total_interval_wait_ns: u64,
        count_wait: Option<u64>,
    },
}

/// A typed line that has no routed counterpart.
#[derive(Debug, Clone, Copy, PartialEq, Eq, Structural)]
pub struct NoMapping;

/// Events that concern the epoll instances and socket names rather than one thread.
pub open spec fn is_global_spec(e: IpcEvent) -> bool {
    match e {
        IpcEvent::EpollItemRemove { .. } | IpcEvent::EpollItemAdd { .. } | IpcEvent::EpollItem { .. }
        | IpcEvent::EpollWait { .. } | IpcEvent::NewSocketMap { .. } => true,
        _ => false,
    }
}

/// The thread a per-thread event belongs to.
pub open spec fn ipc_event_tid(e: IpcEvent) -> Option<u64> {
    match e {
        IpcEvent::InodeWait { tid, .. } => Some(tid),
        IpcEvent::AcceptEnd { tid, .. } => Some(tid),
        IpcEvent::ConnectEnd { tid, .. } => Some(tid),
        _ => None,
    }
}

/// The routed event of a typed line that has one.
pub open spec fn ipc_event_from(e: IpcBpfEvent) -> Result<IpcEvent, NoMapping> {
    match e {
        IpcBpfEvent::NewProcess { comm, pid } => Ok(IpcEvent::NewProcess { comm, pid }),
        IpcBpfEvent::AcceptEnd { comm, tid, fs_type, sb_id, inode_id, conn } => Ok(IpcEvent::AcceptEnd { comm, tid, fs_type, sb_id, inode_id, conn }),
        IpcBpfEvent::ConnectEnd { comm, tid, fs_type, sb_id, inode_id, conn } => Ok(IpcEvent::ConnectEnd { comm, tid, fs_type, sb_id, inode_id, conn }),
        IpcBpfEvent::NewSocketMap { fs_type, sb_id, inode_id, conn } => Ok(IpcEvent::NewSocketMap { fs_type, sb_id, inode_id, conn }),
        IpcBpfEvent::EpollItemAdd { comm, tid, event_poll, fs, target_file, ns_since_boot, contrib_snapshot } => Ok(IpcEvent::EpollItemAdd { comm, tid, event_poll, fs, target_file, ns_since_boot, contrib_snapshot }),
        IpcBpfEvent::EpollItemRemove { comm, tid, event_poll, fs, target_file, ns_since_boot, contrib_snapshot } => Ok(IpcEvent::EpollItemRemove { comm, tid, event_poll, fs, target_file, ns_since_boot, contrib_snapshot }),
        IpcBpfEvent::EpollItem { comm, tid, event_poll, fs, target_file, ns_since_boot, contrib_snapshot } => Ok(IpcEvent::EpollItem { comm, tid, event_poll, fs, target_file, ns_since_boot, contrib_snapshot }),
        _ => Err(NoMapping),
    }
}

/// The event a frame closing at `t` derives from one key's cached and pending fragments.
pub open spec fn ipc_reduce_spec(entry: (Option<IpcBpfEvent>, Option<IpcBpfEvent>), t: u64, prev: Option<u64>) -> Result<IpcEvent, ReduceError> {
    match entry {
        (Some(IpcBpfEvent::InodeMapCached { comm, tid, fs_type, sb_id, inode_id, total_ns, count }), Some(IpcBpfEvent::InodeMapPending { ns_since_boot, .. })) =>
            if derived_wait(total_ns, Some(ns_since_boot), t, prev) <= u64::MAX {
                Ok(IpcEvent::InodeWait { comm, tid, fs_type, sb_id, inode_id, sample_instant_ns: t, total_interval_wait_ns: derived_wait(total_ns, Some(ns_since_boot), t, prev) as u64, count_wait: Some(count) })
            } else {
                Err(ReduceError::Overflow)
            },
        (Some(IpcBpfEvent::InodeMapCached { comm, tid, fs_type, sb_id, inode_id, total_ns, count }), None) =>
            Ok(IpcEvent::InodeWait { comm, tid, fs_type, sb_id, inode_id, sample_instant_ns: t, total_interval_wait_ns: total_ns, count_wait: Some(count) }),
        (None, Some(IpcBpfEvent::InodeMapPending { comm, tid, fs_type, sb_id, inode_id, ns_since_boot })) =>
            Ok(IpcEvent::InodeWait { comm, tid, fs_type, sb_id, inode_id, sample_instant_ns: t, total_interval_wait_ns: pending_extra(Some(ns_since_boot), t, prev) as u64, count_wait: None }),
        (Some(IpcBpfEvent::EpollMapCached { event_poll, total_ns }), Some(IpcBpfEvent::EpollMapPending { ns_since_boot, .. })) =>
            if derived_wait(total_ns, Some(ns_since_boot), t, prev) <= u64::MAX {
                Ok(IpcEvent::EpollWait { event_poll, sample_instant_ns: t, total_interval_wait_ns: derived_wait(total_ns, Some(ns_since_boot), t, prev) as u64 })
            } else {
                Err(ReduceError::Overflow)
            },
        (Some(IpcBpfEvent::EpollMapCached { event_poll, total_ns }), None) =>
            Ok(IpcEvent::EpollWait { event_poll, sample_instant_ns: t, total_interval_wait_ns: total_ns }),
        (None, Some(IpcBpfEvent::EpollMapPending { event_poll, ns_since_boot })) =>
            Ok(IpcEvent::EpollWait { event_poll, sample_instant_ns: t, total_interval_wait_ns: pending_extra(Some(ns_since_boot), t, prev) as u64 }),
        _ => Err(ReduceError::InconsistentEntry),
    }
}

impl IpcEvent {
    /// Whether the event concerns the epoll instances and socket names.
    pub fn is_global(&self) -> (r: bool)
        ensures
            r == is_global_spec(*self),
    {
        match self {
            IpcEvent::EpollItemRemove { .. } | IpcEvent::EpollItemAdd { .. } | IpcEvent::EpollItem { .. }
            | IpcEvent::EpollWait { .. } | IpcEvent::NewSocketMap { .. } => true,
            _ => false,
        }
    }

    /// The thread of an `InodeWait` event.
    pub fn get_inode_wait_tid(&self) -> (r: Option<u64>)
        ensures
            r == (match *self {
                IpcEvent::InodeWait { tid, .. } => Some(tid),
                _ => None,
            }),
    {
        match self {
            IpcEvent::InodeWait { tid, .. } => Some(*tid),
            _ => None,
        }
    }

    /// The routed event of a typed line, or `NoMapping` for a line that has none.
    pub fn from_bpf_event(event: IpcBpfEvent) -> (r: Result<IpcEvent, NoMapping>)
        ensures
            r == ipc_event_from(event),
    {
        match event {
            IpcBpfEvent::NewProcess { comm, pid } => Ok(IpcEvent::NewProcess { comm, pid }),
            IpcBpfEvent::AcceptEnd { comm, tid, fs_type, sb_id, inode_id, conn } => Ok(IpcEvent::AcceptEnd { comm, tid, fs_type, sb_id, inode_id, conn }),
            IpcBpfEvent::ConnectEnd { comm, tid, fs_type, sb_id, inode_id, conn } => Ok(IpcEvent::ConnectEnd { comm, tid, fs_type, sb_id, inode_id, conn }),
            IpcBpfEvent::NewSocketMap { fs_type, sb_id, inode_id, conn } => Ok(IpcEvent::NewSocketMap { fs_type, sb_id, inode_id, conn }),
            IpcBpfEvent::EpollItemAdd { comm, tid, event_poll, fs, target_file, ns_since_boot, contrib_snapshot } => Ok(IpcEvent::EpollItemAdd { comm, tid, event_poll, fs, target_file, ns_since_boot, contrib_snapshot }),
            IpcBpfEvent::EpollItemRemove { comm, tid, event_poll, fs, target_file, ns_since_boot, contrib_snapshot } => Ok(IpcEvent::EpollItemRemove { comm, tid, event_poll, fs, target_file, ns_since_boot, contrib_snapshot }),
            IpcBpfEvent::EpollItem { comm, tid, event_poll, fs, target_file, ns_since_boot, contrib_snapshot } => Ok(IpcEvent::EpollItem { comm, tid, event_poll, fs, target_file, ns_since_boot, contrib_snapshot }),
            _ => Err(NoMapping),
        }
    }

    /// Derives one key's event for the frame closing at `current_instant_ns`.
    pub fn from_stats_closure_entry(
        entry: (Option<IpcBpfEvent>, Option<IpcBpfEvent>),
        current_instant_ns: u64,
        previous_instant_ns: Option<u64>,
    ) -> (r: Result<Self, ReduceError>)
        requires
            instants_ordered(current_instant_ns, previous_instant_ns),
        ensures
            r == ipc_reduce_spec(entry, current_instant_ns, previous_instant_ns),
    {
        let t = current_instant_ns;
        let prev = previous_instant_ns;
        match entry {
            (Some(IpcBpfEvent::InodeMapCached { comm, tid, fs_type, sb_id, inode_id, total_ns, count }), Some(IpcBpfEvent::InodeMapPending { ns_since_boot, .. })) => {
                match derive_wait(total_ns, Some(ns_since_boot), t, prev) {
                    Ok(total) => Ok(IpcEvent::InodeWait { comm, tid, fs_type, sb_id, inode_id, sample_instant_ns: t, total_interval_wait_ns: total, count_wait: Some(count) }),
                    Err(e) => Err(e),
                }
            },
            (Some(IpcBpfEvent::InodeMapCached { comm, tid, fs_type, sb_id, inode_id, total_ns, count }), None) =>
                Ok(IpcEvent::InodeWait { comm, tid, fs_type, sb_id, inode_id, sample_instant_ns: t, total_interval_wait_ns: total_ns, count_wait: Some(count) }),
            (None, Some(IpcBpfEvent::InodeMapPending { comm, tid, fs_type, sb_id, inode_id, ns_since_boot })) => {
                let pending = pending_wait(Some(ns_since_boot), t, prev);
                Ok(IpcEvent::InodeWait { comm, tid, fs_type, sb_id, inode_id, sample_instant_ns: t, total_interval_wait_ns: pending, count_wait: None })
            },
            (Some(IpcBpfEvent::EpollMapCached { event_poll, total_ns }), Some(IpcBpfEvent::EpollMapPending { ns_since_boot, .. })) => {
                match derive_wait(total_ns, Some(ns_since_boot), t, prev) {
                    Ok(total) => Ok(IpcEvent::EpollWait { event_poll, sample_instant_ns: t, total_interval_wait_ns: total }),
                    Err(e) => Err(e),
                }
            },
            (Some(IpcBpfEvent::EpollMapCached { event_poll, total_ns }), None) =>
                Ok(IpcEvent::EpollWait { event_poll, sample_instant_ns: t, total_interval_wait_ns: total_ns }),
            (None, Some(IpcBpfEvent::EpollMapPending { event_poll, ns_since_boot })) => {
                let pending = pending_wait(Some(ns_since_boot), t, prev);
                Ok(IpcEvent::EpollWait { event_poll, sample_instant_ns: t, total_interval_wait_ns: pending })
            },
            _ => Err(ReduceError::InconsistentEntry),
        }
    }
}

/// Key of a stat-closure entry of the IPC script.
#[derive(Debug, Clone)]
pub enum StatsClosureKey {
    Inode { comm: Vec<u8>, tid: u64, device: u32, inode_id: i64 },
    EventPoll { address: u64 },
}

/// A key as plain values: (is an inode, comm, tid or epoll address, device, inode).
pub type IpcKeyView = (bool, Seq<u8>, u64, u32, i64);

pub open spec fn ipc_key_view(k: StatsClosureKey) -> IpcKeyView {
    match k {
        StatsClosureKey::Inode { comm, tid, device, inode_id } => (true, comm@, tid, device, inode_id),
        StatsClosureKey::EventPoll { address } => (false, Seq::empty(), address, 0, 0),
    }
}

/// The cached and pending fragments of one key.
pub type Fragments = (Option<IpcBpfEvent>, Option<IpcBpfEvent>);

/// The key of a map-summary fragment.
pub open spec fn fragment_key(e: IpcBpfEvent) -> IpcKeyView {
    match e {
        IpcBpfEvent::InodeMapCached { comm, tid, sb_id, inode_id, .. } => (true, comm@, tid, sb_id, inode_id),
        IpcBpfEvent::InodeMapPending { comm, tid, sb_id, inode_id, .. } => (true, comm@, tid, sb_id, inode_id),
        IpcBpfEvent::EpollMapCached { event_poll, .. } => (false, Seq::empty(), event_poll, 0, 0),
        IpcBpfEvent::EpollMapPending { event_poll, .. } => (false, Seq::empty(), event_poll, 0, 0),
        _ => arbitrary(),
    }
}

/// The IPC program's accounting state, as plain values.
pub struct IpcState {
    /// Per-thread events (`InodeWait`, `AcceptEnd`, `ConnectEnd`) not yet taken.
    pub events: Seq<IpcEvent>,
    /// Epoll and socket-name events not yet taken.
    pub global_events: Seq<IpcEvent>,
    /// Announced processes not yet taken.
    pub process_events: Seq<IpcEvent>,
    /// `None` outside a frame; inside one, the frame's instant once it is known.
    pub closure: Option<Option<u64>>,
    /// The fragments gathered in the open frame, one entry per key, in order of arrival.
    pub entries: Seq<(IpcKeyView, Fragments)>,
    /// The instant of the last closed frame.
    pub prev_instant_ns: Option<u64>,
}

pub open spec fn find_ipc_from(es: Seq<(IpcKeyView, Fragments)>, k: IpcKeyView, i: int) -> int
    decreases es.len() - i,
{
    if i < 0 || i >= es.len() {
        -1
    } else if es[i].0 == k {
        i
    } else {
        find_ipc_from(es, k, i + 1)
    }
}

/// No key has two entries.
pub open spec fn ipc_keys_unique(es: Seq<(IpcKeyView, Fragments)>) -> bool {
    forall|a: int, b: int| 0 <= a < b < es.len() ==> (#[trigger] es[a]).0 != (#[trigger] es[b]).0
}

proof fn lemma_ipc_absent(es: Seq<(IpcKeyView, Fragments)>, k: IpcKeyView, i: int)
    requires
        0 <= i,
        find_ipc_from(es, k, i) < 0,
    ensures
        forall|m: int| i <= m < es.len() ==> es[m].0 != k,
    decreases es.len() - i,
{
    if i < es.len() {
        lemma_ipc_absent(es, k, i + 1);
    }
}

/// Recording a fragment keeps the entry keys unique.
pub proof fn lemma_fragment_unique(es: Seq<(IpcKeyView, Fragments)>, k: IpcKeyView, e: IpcBpfEvent, cached: bool)
    requires
        ipc_keys_unique(es),
    ensures
        ipc_keys_unique(with_fragment(es, k, e, cached)),
{
    let i = find_ipc_from(es, k, 0);
    let n = with_fragment(es, k, e, cached);
    if i < 0 {
        lemma_ipc_absent(es, k, 0);
        assert forall|a: int, b: int| 0 <= a < b < n.len() implies (#[trigger] n[a]).0 != (#[trigger] n[b]).0 by {
            assert(n[a] == es[a]);
            if b < es.len() {
                assert(n[b] == es[b]);
            }
        }
    } else {
        lemma_find_ipc_hit(es, k, 0);
        assert forall|a: int, b: int| 0 <= a < b < n.len() implies (#[trigger] n[a]).0 != (#[trigger] n[b]).0 by {
            assert(n[a].0 == es[a].0 && n[b].0 == es[b].0);
        }
    }
}

/// Records a cached (`cached`) or pending fragment for its key.
pub open spec fn with_fragment(es: Seq<(IpcKeyView, Fragments)>, k: IpcKeyView, e: IpcBpfEvent, cached: bool) -> Seq<(IpcKeyView, Fragments)> {
    let i = find_ipc_from(es, k, 0);
    if i < 0 {
        es.push((k, if cached { (Some(e), None) } else { (None, Some(e)) }))
    } else if cached {
        es.update(i, (k, (Some(e), es[i].1.1)))
    } else {
        es.update(i, (k, (es[i].1.0, Some(e))))
    }
}

/// The events a frame closing at `t` derives from its entries, in order.
pub open spec fn ipc_outputs(es: Seq<(IpcKeyView, Fragments)>, t: u64, prev: Option<u64>) -> Result<Seq<IpcEvent>, ReduceError>
    decreases es.len(),
{
    if es.len() == 0 {
        Ok(Seq::<IpcEvent>::empty())
    } else {
        match ipc_outputs(es.drop_last(), t, prev) {
            Ok(out) => match ipc_reduce_spec(es.last().1, t, prev) {
                Ok(e) => Ok(out.push(e)),
                Err(err) => Err(err),
            },
            Err(err) => Err(err),
        }
    }
}

pub open spec fn global_pred() -> spec_fn(IpcEvent) -> bool {
    |e: IpcEvent| is_global_spec(e)
}

pub open spec fn thread_pred() -> spec_fn(IpcEvent) -> bool {
    |e: IpcEvent| !is_global_spec(e)
}

/// How one typed line changes the IPC program's state.
pub open spec fn ipc_step(s: IpcState, e: IpcBpfEvent) -> Result<IpcState, ReduceError> {
    match e {
        IpcBpfEvent::NewProcess { .. } => Ok(IpcState { process_events: s.process_events.push(ipc_event_from(e).unwrap()), ..s }),
        IpcBpfEvent::NewSocketMap { .. } | IpcBpfEvent::EpollItemAdd { .. } | IpcBpfEvent::EpollItemRemove { .. }
        | IpcBpfEvent::EpollItem { .. } => Ok(IpcState { global_events: s.global_events.push(ipc_event_from(e).unwrap()), ..s }),
        IpcBpfEvent::AcceptEnd { .. } | IpcBpfEvent::ConnectEnd { .. } => Ok(IpcState { events: s.events.push(ipc_event_from(e).unwrap()), ..s }),
        IpcBpfEvent::MapStatsStart => Ok(IpcState { closure: Some(None), ..s }),
        IpcBpfEvent::SampleInstant { ns_since_boot } => match s.closure {
            Some(None) => Ok(IpcState { closure: Some(Some(ns_since_boot)), ..s }),
            _ => Err(ReduceError::InstantOutsideClosure),
        },
        IpcBpfEvent::MapStatsEnd => match s.closure {
            Some(Some(t)) => if !instants_ordered(t, s.prev_instant_ns) {
                Err(ReduceError::InstantWentBack)
            } else {
                match ipc_outputs(s.entries, t, s.prev_instant_ns) {
                    Ok(out) => Ok(IpcState {
                        events: s.events + out.filter(thread_pred()),
                        global_events: s.global_events + out.filter(global_pred()),
                        process_events: s.process_events,
                        closure: None,
                        entries: Seq::empty(),
                        prev_instant_ns: Some(t),
                    }),
                    Err(err) => Err(err),
                }
            },
            _ => Err(ReduceError::EndOutsideClosure),
        },
        IpcBpfEvent::InodeMapCached { .. } | IpcBpfEvent::EpollMapCached { .. } => Ok(IpcState { entries: with_fragment(s.entries, fragment_key(e), e, true), ..s }),
        IpcBpfEvent::InodeMapPending { .. } | IpcBpfEvent::EpollMapPending { .. } => Ok(IpcState { entries: with_fragment(s.entries, fragment_key(e), e, false), ..s }),
        _ => Ok(s),
    }
}

/// The state after a sequence of typed lines, or the first error.
pub open spec fn ipc_run(s: IpcState, evs: Seq<IpcBpfEvent>) -> Result<IpcState, ReduceError>
    decreases evs.len(),
{
    if evs.len() == 0 {
        Ok(s)
    } else {
        match ipc_run(s, evs.drop_last()) {
            Ok(s1) => ipc_step(s1, evs.last()),
            Err(err) => Err(err),
        }
    }
}

pub open spec fn ipc_entries_view(v: Seq<(StatsClosureKey, Fragments)>) -> Seq<(IpcKeyView, Fragments)> {
    v.map_values(|p: (StatsClosureKey, Fragments)| (ipc_key_view(p.0), p.1))
}

/// The IPC tracing program: frames its output, reduces map dumps, and keeps the events
/// until the per-thread and epoll accumulators take them.
pub struct IpcProgram {
    reader: FrameReader,
    events: Vec<IpcEvent>,
    global_events: Vec<IpcEvent>,
    new_process_events: Vec<IpcEvent>,
    state: Option<Option<u64>>,
    stats_closure_events: Vec<(StatsClosureKey, Fragments)>,
    prev_instant_ns: Option<u64>,
}

impl View for IpcProgram {
    type V = IpcState;

    closed spec fn view(&self) -> IpcState {
        IpcState {
            events: self.events@,
            global_events: self.global_events@,
            process_events: self.new_process_events@,
            closure: self.state,
            entries: ipc_entries_view(self.stats_closure_events@),
            prev_instant_ns: self.prev_instant_ns,
        }
    }
}

fn ipc_key_is(k: &StatsClosureKey, inode: bool, comm: &Vec<u8>, num: u64, device: u32, inode_id: i64) -> (r: bool)
    ensures
        r == (ipc_key_view(*k) == (inode, if inode { comm@ } else { Seq::<u8>::empty() }, num, if inode { device } else { 0u32 }, if inode { inode_id } else { 0i64 })),
{
    match k {
        StatsClosureKey::Inode { comm: c, tid, device: d, inode_id: i } => inode && *tid == num && *d == device && *i == inode_id && bytes_eq(c.as_slice(), comm.as_slice()),
        StatsClosureKey::EventPoll { address } => !inode && *address == num,
    }
}

/// Once a prefix of the entries fails to reduce, so do all longer prefixes.
proof fn lemma_ipc_outputs_err_prefix(es: Seq<(IpcKeyView, Fragments)>, k: int, n: int, t: u64, prev: Option<u64>, err: ReduceError)
    requires
        0 <= k <= n <= es.len(),
        ipc_outputs(es.subrange(0, k), t, prev) == Err::<Seq<IpcEvent>, ReduceError>(err),
    ensures
        ipc_outputs(es.subrange(0, n), t, prev) == Err::<Seq<IpcEvent>, ReduceError>(err),
    decreases n - k,
{
    if k < n {
        lemma_ipc_outputs_err_prefix(es, k, n - 1, t, prev, err);
        assert(es.subrange(0, n).drop_last() =~= es.subrange(0, n - 1));
    }
}

proof fn lemma_find_ipc_hit(es: Seq<(IpcKeyView, Fragments)>, k: IpcKeyView, j: int)
    requires
        0 <= j,
    ensures
        find_ipc_from(es, k, j) >= 0 ==> (j <= find_ipc_from(es, k, j) < es.len() && es[find_ipc_from(es, k, j)].0 == k),
    decreases es.len() - j,
{
    if j < es.len() && es[j].0 != k {
        lemma_find_ipc_hit(es, k, j + 1);
    }
}

impl IpcProgram {
    /// A program that has read nothing yet.
    pub fn new() -> (r: Self)
        ensures
            r@ == (IpcState {
                events: Seq::empty(),
                global_events: Seq::empty(),
                process_events: Seq::empty(),
                closure: None,
                entries: Seq::empty(),
                prev_instant_ns: None,
            }),
            r.frame() == (false, Seq::<u8>::empty()),
    {
        let r = IpcProgram {
            reader: FrameReader::new(),
            events: Vec::new(),
            global_events: Vec::new(),
            new_process_events: Vec::new(),
            state: None,
            stats_closure_events: Vec::new(),
            prev_instant_ns: None,
        };
        assert(ipc_entries_view(r.stats_closure_events@) =~= Seq::empty());
        r
    }

    /// The framing state of the program's output.
    pub closed spec fn frame(&self) -> FrameState {
        self.reader.frame()
    }

    /// Whether the header line of the script's output has been consumed.
    pub fn header_read(&self) -> (r: bool)
        ensures
            r == self.frame().0,
    {
        self.reader.header_read()
    }

    fn find_key(&self, inode: bool, comm: &Vec<u8>, num: u64, device: u32, inode_id: i64) -> (r: Option<usize>)
        ensures
            ({
                let k = (inode, if inode { comm@ } else { Seq::<u8>::empty() }, num, if inode { device } else { 0u32 }, if inode { inode_id } else { 0i64 });
                match r {
                    Some(i) => i as int == find_ipc_from(self@.entries, k, 0) && i < self@.entries.len(),
                    None => find_ipc_from(self@.entries, k, 0) < 0,
                }
            }),
    {
        let ghost k = (inode, if inode { comm@ } else { Seq::<u8>::empty() }, num, if inode { device } else { 0u32 }, if inode { inode_id } else { 0i64 });
        let ghost es = self@.entries;
        let mut i: usize = 0;
        while i < self.stats_closure_events.len()
            invariant
                0 <= i <= self.stats_closure_events@.len(),
                es == ipc_entries_view(self.stats_closure_events@),
                es == self@.entries,
                es.len() == self.stats_closure_events@.len(),
                k == (inode, if inode { comm@ } else { Seq::<u8>::empty() }, num, if inode { device } else { 0u32 }, if inode { inode_id } else { 0i64 }),
                find_ipc_from(es, k, 0) == find_ipc_from(es, k, i as int),
            decreases self.stats_closure_events@.len() - i,
        {
            assert(es[i as int] == (ipc_key_view(self.stats_closure_events@[i as int].0), self.stats_closure_events@[i as int].1));
            if ipc_key_is(&self.stats_closure_events[i].0, inode, comm, num, device, inode_id) {
                return Some(i);
            }
            i = i + 1;
        }
        None
    }

    /// Records a map-summary fragment under its key.
    fn put_fragment(&mut self, ev: IpcBpfEvent, cached: bool)
        requires
            ev is InodeMapCached || ev is InodeMapPending || ev is EpollMapCached || ev is EpollMapPending,
        ensures
            final(self)@ == (IpcState { entries: with_fragment(old(self)@.entries, fragment_key(ev), ev, cached), ..old(self)@ }),
            final(self).frame() == old(self).frame(),
    {
        let (key, inode, comm, num, device, inode_id) = match &ev {
            IpcBpfEvent::InodeMapCached { comm, tid, sb_id, inode_id, .. } => {
                let c = crate::futex::copy_bytes(comm);
                let c2 = crate::futex::copy_bytes(comm);
                (StatsClosureKey::Inode { comm: c, tid: *tid, device: *sb_id, inode_id: *inode_id }, true, c2, *tid, *sb_id, *inode_id)
            },
            IpcBpfEvent::InodeMapPending { comm, tid, sb_id, inode_id, .. } => {
                let c = crate::futex::copy_bytes(comm);
                let c2 = crate::futex::copy_bytes(comm);
                (StatsClosureKey::Inode { comm: c, tid: *tid, device: *sb_id, inode_id: *inode_id }, true, c2, *tid, *sb_id, *inode_id)
            },
            IpcBpfEvent::EpollMapCached { event_poll, .. } => (StatsClosureKey::EventPoll { address: *event_poll }, false, Vec::new(), *event_poll, 0u32, 0i64),
            IpcBpfEvent::EpollMapPending { event_poll, .. } => (StatsClosureKey::EventPoll { address: *event_poll }, false, Vec::new(), *event_poll, 0u32, 0i64),
            _ => (StatsClosureKey::EventPoll { address: 0 }, false, Vec::new(), 0u64, 0u32, 0i64),
        };
        let ghost k = fragment_key(ev);
        assert(ipc_key_view(key) == k);
        assert(k == (inode, if inode { comm@ } else { Seq::<u8>::empty() }, num, if inode { device } else { 0u32 }, if inode { inode_id } else { 0i64 }));
        let ghost before = self.stats_closure_events@;
        assert(ipc_entries_view(before).len() == before.len());
        match self.find_key(inode, &comm, num, device, inode_id) {
            None => {
                let v: Fragments = if cached { (Some(ev), None) } else { (None, Some(ev)) };
                self.stats_closure_events.push((key, v));
                assert(ipc_entries_view(self.stats_closure_events@) =~= ipc_entries_view(before).push((k, v)));
            },
            Some(i) => {
                proof {
                    lemma_find_ipc_hit(ipc_entries_view(before), k, 0);
                }
                assert(ipc_entries_view(before)[i as int] == (ipc_key_view(before[i as int].0), before[i as int].1));
                let (old_key, (c, p)) = self.stats_closure_events.remove(i);
                let v: Fragments = if cached { (Some(ev), p) } else { (c, Some(ev)) };
                self.stats_closure_events.insert(i, (old_key, v));
                assert(ipc_entries_view(self.stats_closure_events@) =~= ipc_entries_view(before).update(i as int, (k, v)));
            },
        }
    }

    /// Closes the open frame: derives one event per key and routes it.
    fn close_frame(&mut self) -> (r: Result<(), ReduceError>)
        ensures
            match ipc_step(old(self)@, IpcBpfEvent::MapStatsEnd) {
                Ok(s) => r is Ok && final(self)@ == s,
                Err(e) => r == Err::<(), ReduceError>(e),
            },
            r is Err ==> final(self)@.events == old(self)@.events && final(self)@.global_events == old(self)@.global_events
                && final(self)@.process_events == old(self)@.process_events,
            r is Err ==> final(self)@.entries == old(self)@.entries || final(self)@.entries.len() == 0,
            final(self).frame() == old(self).frame(),
    {
        let t = match self.state {
            Some(Some(t)) => t,
            _ => return Err(ReduceError::EndOutsideClosure),
        };
        let prev = self.prev_instant_ns;
        match prev {
            Some(p) => if p > t {
                return Err(ReduceError::InstantWentBack);
            },
            None => {},
        }
        let ghost s0 = self@;
        let mut entries: Vec<(StatsClosureKey, Fragments)> = Vec::new();
        std::mem::swap(&mut entries, &mut self.stats_closure_events);
        assert(ipc_entries_view(self.stats_closure_events@) =~= Seq::<(IpcKeyView, Fragments)>::empty());
        let ghost all = entries@;
        let n = entries.len();
        let ghost mut out: Seq<IpcEvent> = Seq::empty();
        let mut k: usize = 0;
        assert(ipc_entries_view(all).subrange(0, 0) =~= Seq::<(IpcKeyView, Fragments)>::empty());
        proof {
            reveal(Seq::filter);
        }
        assert(out.filter(thread_pred()) =~= Seq::<IpcEvent>::empty());
        assert(out.filter(global_pred()) =~= Seq::<IpcEvent>::empty());
        let mut thread_out: Vec<IpcEvent> = Vec::new();
        let mut global_out: Vec<IpcEvent> = Vec::new();
        while entries.len() > 0
            invariant
                0 <= k <= n,
                n == all.len(),
                entries@ == all.subrange(k as int, n as int),
                entries@.len() == n - k,
                ipc_outputs(ipc_entries_view(all).subrange(0, k as int), t, prev) == Ok::<Seq<IpcEvent>, ReduceError>(out),
                instants_ordered(t, prev),
                self.frame() == old(self).frame(),
                self@ == (IpcState { entries: Seq::empty(), ..s0 }),
                thread_out@ == out.filter(thread_pred()),
                global_out@ == out.filter(global_pred()),
                s0 == old(self)@,
                s0.entries == ipc_entries_view(all),
                s0.closure == Some(Some(t)),
                prev == s0.prev_instant_ns,
            decreases entries@.len(),
        {
            assert(k < n);
            let (_key, v) = entries.remove(0);
            proof {
                assert(ipc_entries_view(all).subrange(0, k + 1).drop_last() =~= ipc_entries_view(all).subrange(0, k as int));
                assert(ipc_entries_view(all).subrange(0, k + 1).last() == ipc_entries_view(all)[k as int]);
                assert(all[k as int] == (_key, v));
            }
            match IpcEvent::from_stats_closure_entry(v, t, prev) {
                Ok(e) => {
                    proof {
                        out.lemma_filter_push(e, thread_pred());
                        out.lemma_filter_push(e, global_pred());
                    }
                    let ghost ev_out = e;
                    if e.is_global() {
                        global_out.push(e);
                    } else {
                        thread_out.push(e);
                    }
                    proof {
                        out = out.push(ev_out);
                    }
                },
                Err(err) => {
                    proof {
                        lemma_ipc_outputs_err_prefix(ipc_entries_view(all), k + 1, n as int, t, prev, err);
                        assert(ipc_entries_view(all).subrange(0, n as int) =~= ipc_entries_view(all));
                    }
                    return Err(err);
                },
            }
            k = k + 1;
            assert(entries@ =~= all.subrange(k as int, n as int));
        }
        assert(ipc_entries_view(all).subrange(0, k as int) =~= ipc_entries_view(all));
        let ghost ev_before = self.events@;
        let ghost gl_before = self.global_events@;
        self.events.append(&mut thread_out);
        self.global_events.append(&mut global_out);
        assert(self.events@ =~= ev_before + out.filter(thread_pred()));
        assert(self.global_events@ =~= gl_before + out.filter(global_pred()));
        self.state = None;
        self.prev_instant_ns = Some(t);
        Ok(())
    }

    /// Applies one typed line of the script's output.
    pub fn handle_event(&mut self, event: IpcBpfEvent) -> (r: Result<(), ReduceError>)
        ensures
            match ipc_step(old(self)@, event) {
                Ok(s) => r is Ok && final(self)@ == s,
                Err(e) => r == Err::<(), ReduceError>(e),
            },
            r is Err ==> final(self)@.events == old(self)@.events && final(self)@.global_events == old(self)@.global_events
                && final(self)@.process_events == old(self)@.process_events,
            ipc_keys_unique(old(self)@.entries) ==> ipc_keys_unique(final(self)@.entries),
            final(self).frame() == old(self).frame(),
    {
        let ghost s0 = self@;
        let ghost e0 = event;
        let r = match event {
            IpcBpfEvent::NewProcess { .. } => {
                match IpcEvent::from_bpf_event(event) {
                    Ok(e) => self.new_process_events.push(e),
                    Err(_) => {},
                }
                Ok(())
            },
            IpcBpfEvent::NewSocketMap { .. } | IpcBpfEvent::EpollItemAdd { .. } | IpcBpfEvent::EpollItemRemove { .. }
            | IpcBpfEvent::EpollItem { .. } => {
                match IpcEvent::from_bpf_event(event) {
                    Ok(e) => self.global_events.push(e),
                    Err(_) => {},
                }
                Ok(())
            },
            IpcBpfEvent::AcceptEnd { .. } | IpcBpfEvent::ConnectEnd { .. } => {
                match IpcEvent::from_bpf_event(event) {
                    Ok(e) => self.events.push(e),
                    Err(_) => {},
                }
                Ok(())
            },
            IpcBpfEvent::MapStatsStart => {
                self.state = Some(None);
                Ok(())
            },
            IpcBpfEvent::SampleInstant { ns_since_boot } => {
                match self.state {
                    Some(None) => {
                        self.state = Some(Some(ns_since_boot));
                        Ok(())
                    },
                    _ => Err(ReduceError::InstantOutsideClosure),
                }
            },
            IpcBpfEvent::MapStatsEnd => self.close_frame(),
            IpcBpfEvent::InodeMapCached { .. } | IpcBpfEvent::EpollMapCached { .. } => {
                self.put_fragment(event, true);
                Ok(())
            },
            IpcBpfEvent::InodeMapPending { .. } | IpcBpfEvent::EpollMapPending { .. } => {
                self.put_fragment(event, false);
                Ok(())
            },
            _ => Ok(()),
        };
        proof {
            if ipc_keys_unique(s0.entries) {
                match e0 {
                    IpcBpfEvent::InodeMapCached { .. } | IpcBpfEvent::EpollMapCached { .. } => lemma_fragment_unique(s0.entries, fragment_key(e0), e0, true),
                    IpcBpfEvent::InodeMapPending { .. } | IpcBpfEvent::EpollMapPending { .. } => lemma_fragment_unique(s0.entries, fragment_key(e0), e0, false),
                    _ => {},
                }
            }
        }
        r
    }
}

/// What a call of `IpcProgram::poll_bytes` did, given the records `recs` it framed and the
/// typed lines `evs` it applied.
pub open spec fn ipc_poll_outcome(
    old_frame: FrameState,
    new_frame: FrameState,
    buf: Seq<u8>,
    old_state: IpcState,
    new_state: IpcState,
    r: Result<usize, ReduceError>,
    recs: Seq<Seq<u8>>,
    evs: Seq<IpcBpfEvent>,
) -> bool {
    &&& frame_run(old_frame, buf) == (new_frame, recs)
    &&& evs.len() <= recs.len()
    &&& forall|i: int| 0 <= i < evs.len() ==> ipc_event_of(recs[i], #[trigger] evs[i])
    &&& match r {
        Ok(n) => evs.len() == recs.len() && ipc_run(old_state, evs) == Ok::<IpcState, ReduceError>(new_state)
            && n == (if new_state.events.len() + new_state.global_events.len() > usize::MAX {
                usize::MAX as int
            } else {
                (new_state.events.len() + new_state.global_events.len()) as int
            }),
        Err(e) => evs.len() > 0 && ipc_run(old_state, evs) == Err::<IpcState, ReduceError>(e) && match ipc_run(old_state, evs.drop_last()) {
            Ok(s1) => new_state.events == s1.events && new_state.global_events == s1.global_events && new_state.process_events == s1.process_events,
            Err(_) => false,
        },
    }
}

/// Per-thread events of thread `tid`.
pub open spec fn of_ipc_thread(tid: u64) -> spec_fn(IpcEvent) -> bool {
    |e: IpcEvent| ipc_event_tid(e) == Some(tid)
}

pub open spec fn not_of_ipc_thread(tid: u64) -> spec_fn(IpcEvent) -> bool {
    |e: IpcEvent| ipc_event_tid(e) != Some(tid)
}

impl IpcProgram {
    /// Consumes a chunk of the script's output: frames it into records, types each one and
    /// applies it, stopping at the first reducer error. Returns the number of events
    /// waiting to be taken.
    pub fn poll_bytes(&mut self, buf: &[u8]) -> (r: Result<usize, ReduceError>)
        ensures
            exists|recs: Seq<Seq<u8>>, evs: Seq<IpcBpfEvent>|
                #[trigger] ipc_poll_outcome(old(self).frame(), final(self).frame(), buf@, old(self)@, final(self)@, r, recs, evs),
    {
        let recs = self.reader.handle_bytes(buf);
        let ghost rv = views(recs@);
        let ghost s0 = old(self)@;
        let ghost mut evs: Seq<IpcBpfEvent> = Seq::empty();
        let mut recs = recs;
        let ghost all = recs@;
        let n = recs.len();
        let mut i: usize = 0;
        assert(rv.len() == n);
        while recs.len() > 0
            invariant
                n == all.len(),
                rv == views(all),
                recs@ == all.subrange(i as int, n as int),
                recs@.len() == n - i,
                0 <= i <= n,
                s0 == old(self)@,
                evs.len() == i,
                forall|j: int| 0 <= j < evs.len() ==> ipc_event_of(rv[j], #[trigger] evs[j]),
                ipc_run(s0, evs) == Ok::<IpcState, ReduceError>(self@),
                frame_run(old(self).frame(), buf@) == (self.frame(), rv),
            decreases recs@.len(),
        {
            assert(i < n);
            let rec = recs.remove(0);
            assert(rec@ == rv[i as int]);
            let e = IpcBpfEvent::from_bytes(rec);
            let ghost e_spec = e;
            let ghost before = self@;
            let res = self.handle_event(e);
            proof {
                assert(evs.push(e_spec).drop_last() =~= evs);
                evs = evs.push(e_spec);
                assert(ipc_run(s0, evs) == ipc_step(before, e_spec));
            }
            i = i + 1;
            assert(recs@ =~= all.subrange(i as int, n as int));
            match res {
                Ok(()) => {},
                Err(err) => {
                    assert(ipc_poll_outcome(old(self).frame(), self.frame(), buf@, s0, self@, Err::<usize, ReduceError>(err), rv, evs));
                    return Err(err);
                },
            }
        }
        let count = self.events.len().saturating_add(self.global_events.len());
        assert(ipc_poll_outcome(old(self).frame(), self.frame(), buf@, s0, self@, Ok::<usize, ReduceError>(count), rv, evs));
        Ok(count)
    }

    /// Takes the per-thread events of thread `tid`, in order.
    pub fn take_tid_events(&mut self, tid: u64) -> (r: Vec<IpcEvent>)
        ensures
            r@ == old(self)@.events.filter(of_ipc_thread(tid)),
            final(self)@ == (IpcState { events: old(self)@.events.filter(not_of_ipc_thread(tid)), ..old(self)@ }),
            final(self).frame() == old(self).frame(),
    {
        let mut all: Vec<IpcEvent> = Vec::new();
        std::mem::swap(&mut all, &mut self.events);
        let ghost orig = all@;
        let n = all.len();
        let mut taken: Vec<IpcEvent> = Vec::new();
        let mut i: usize = 0;
        assert(orig.subrange(0, 0) =~= Seq::<IpcEvent>::empty());
        proof {
            reveal(Seq::filter);
        }
        while all.len() > 0
            invariant
                n == orig.len(),
                0 <= i <= n,
                all@ == orig.subrange(i as int, n as int),
                taken@ == orig.subrange(0, i as int).filter(of_ipc_thread(tid)),
                self.events@ == orig.subrange(0, i as int).filter(not_of_ipc_thread(tid)),
                self.frame() == old(self).frame(),
                orig == old(self)@.events,
                self.global_events == old(self).global_events,
                self.new_process_events == old(self).new_process_events,
                self.state == old(self).state,
                self.stats_closure_events == old(self).stats_closure_events,
                self.prev_instant_ns == old(self).prev_instant_ns,
            decreases all@.len(),
        {
            assert(all@.len() == n - i);
            assert(i < n);
            let e = all.remove(0);
            let et = match &e {
                IpcEvent::InodeWait { tid, .. } => Some(*tid),
                IpcEvent::AcceptEnd { tid, .. } => Some(*tid),
                IpcEvent::ConnectEnd { tid, .. } => Some(*tid),
                _ => None,
            };
            let hit = match et {
                Some(x) => x == tid,
                None => false,
            };
            assert(of_ipc_thread(tid)(e) == hit);
            assert(not_of_ipc_thread(tid)(e) == !hit);
            let ghost pre = orig.subrange(0, i as int);
            let ghost post = orig.subrange(0, i + 1);
            assert(post =~= pre.push(e));
            proof {
                pre.lemma_filter_push(e, of_ipc_thread(tid));
                pre.lemma_filter_push(e, not_of_ipc_thread(tid));
            }
            if hit {
                taken.push(e);
            } else {
                self.events.push(e);
            }
            i = i + 1;
            assert(all@ =~= orig.subrange(i as int, n as int));
        }
        assert(orig.subrange(0, n as int) =~= orig);
        taken
    }

    /// Takes the epoll and socket-name events, in order.
    pub fn take_global_events(&mut self) -> (r: Vec<IpcEvent>)
        ensures
            r@ == old(self)@.global_events,
            final(self)@ == (IpcState { global_events: Seq::empty(), ..old(self)@ }),
            final(self).frame() == old(self).frame(),
    {
        let mut out: Vec<IpcEvent> = Vec::new();
        std::mem::swap(&mut out, &mut self.global_events);
        out
    }

    /// Takes the announced processes, in order.
    pub fn take_process_events(&mut self) -> (r: Vec<IpcEvent>)
        ensures
            r@ == old(self)@.process_events,
            final(self)@ == (IpcState { process_events: Seq::empty(), ..old(self)@ }),
            final(self).frame() == old(self).frame(),
    {
        let mut out: Vec<IpcEvent> = Vec::new();
        std::mem::swap(&mut out, &mut self.new_process_events);
        out
    }
}

} // verus!
