//! Lines the tracer emits parse back to the events they were emitted for.
use vstd::prelude::*;

use crate::ipc::{conn_view, ipv4_spec, ConnView, Connection, ipc_event_of, ipc_line_denotes, target_view, IpcBpfEvent};
use crate::lits::{lit_accept_end, lit_connect_end, lit_new_socket_map, lit_af_inet, lit_af_unix, lit_epoll_pending, lit_inode_map, lit_inode_pending, lit_new_process, lit_anon_inodefs, lit_epi_poll, lit_epoll_remove, lit_epoll_add, lit_epoll_map, lit_sample_instant, lit_wait_elapsed, lit_wait_pending, lit_wake};
use crate::futex::{futex_line_denotes, FutexBpfEvent};
use crate::render::{dec_text, hex_char, hex_text};
use crate::text::{dec_fits, is_ws, int_fits, int_value, all_hex, hex_digit, hex_fits, hex_value, strip_0x, all_digits, dec_value, is_digit, split_spec, trim_end_spec, trim_spec, trim_start_spec, starts_with_spec};
use crate::wire::{fi64, fhex, find_first, find_last_close, fu32, fu64, is_close_at, list_spec, marker_spec, summary_parts, tuple_spec, Marker};

verus! {

/// Decimal text reads back as the number it was written from.
pub proof fn lemma_dec_round_trip(n: nat)
    ensures
        dec_text(n).len() > 0,
        all_digits(dec_text(n)),
        dec_value(dec_text(n)) == n,
    decreases n,
{
    if n >= 10 {
        lemma_dec_round_trip(n / 10);
        let t = dec_text(n);
        assert(t.drop_last() =~= dec_text(n / 10));
        assert forall|i: int| 0 <= i < t.len() implies is_digit(#[trigger] t[i]) by {
            if i < t.len() - 1 {
                assert(t[i] == dec_text(n / 10)[i]);
            }
        }
        assert(n % 10 < 10);
        assert(t.last() == (48 + n % 10) as u8);
        assert(t.last() as int - 48 == n % 10);
        assert((n / 10) * 10 + n % 10 == n) by (nonlinear_arith);
        assert(dec_value(t) == dec_value(t.drop_last()) * 10 + (t.last() as int - 48) as nat);
    } else {
        assert(dec_text(n).drop_last() =~= Seq::<u8>::empty());
        assert(dec_text(n).last() == (48 + n) as u8);
        assert(dec_value(dec_text(n)) == dec_value(dec_text(n).drop_last()) * 10 + (dec_text(n).last() as int - 48) as nat);
    }
}

/// Splitting `a`, a separator, then `b` (which holds no separator) gives the fields of `a`
/// followed by `b`.
pub proof fn lemma_split_append(a: Seq<u8>, sep: u8, b: Seq<u8>)
    requires
        forall|i: int| 0 <= i < b.len() ==> b[i] != sep,
    ensures
        split_spec(a + seq![sep] + b, sep) == split_spec(a, sep).push(b),
    decreases b.len(),
{
    if b.len() == 0 {
        assert((a + seq![sep] + b).drop_last() =~= a);
        assert(a + seq![sep] + b =~= a.push(sep));
        assert(b =~= Seq::<u8>::empty());
        assert((a + seq![sep] + b).last() == sep);
    } else {
        assert(b[b.len() - 1] != sep);
        lemma_split_append(a, sep, b.drop_last());
        let s = a + seq![sep] + b;
        assert(s.drop_last() =~= a + seq![sep] + b.drop_last());
        assert(s.last() == b.last());
        let p = split_spec(s.drop_last(), sep);
        assert(p.update(p.len() - 1, p.last().push(s.last())) =~= split_spec(a, sep).push(b)) by {
            assert(b.drop_last().push(b.last()) =~= b);
        }
    }
}

/// The `SampleInstant` line the IPC script emits for instant `n`.
pub open spec fn sample_instant_line(n: u64) -> Seq<u8> {
    lit_sample_instant() + seq![9u8] + dec_text(n as nat)
}

/// A `SampleInstant` line of the IPC script parses back to exactly the event it was
/// emitted for.
pub proof fn lemma_sample_instant_round_trip(n: u64)
    ensures
        forall|e: IpcBpfEvent| ipc_event_of(sample_instant_line(n), e) <==> e == (IpcBpfEvent::SampleInstant { ns_since_boot: n }),
{
    let s = sample_instant_line(n);
    let d = dec_text(n as nat);
    lemma_dec_round_trip(n as nat);
    assert forall|i: int| 0 <= i < d.len() implies d[i] != 9u8 by {
        assert(is_digit(d[i]));
    }
    lemma_split_append(lit_sample_instant(), 9, d);
    let tag = lit_sample_instant();
    assert(split_spec(tag, 9) =~= seq![tag]) by {
        lemma_split_no_sep(tag, 9);
    }
    let f = split_spec(s, 9);
    assert(f =~= seq![tag, d]);
    assert(trim_end_spec(tag) == tag);
    assert(trim_start_spec(tag) == tag);
    assert(trim_spec(f[0]) == tag);
    assert(fu64(f, 1) == Some(n));
    assert(s[0] == 83);
    assert(!starts_with_spec(s, seq![61u8, 62])) by {
        assert(s.subrange(0, 2)[0] == 83);
    }
    assert(ipc_line_denotes(s, Some(IpcBpfEvent::SampleInstant { ns_since_boot: n })));
    assert forall|e: IpcBpfEvent| ipc_event_of(s, e) <==> e == (IpcBpfEvent::SampleInstant { ns_since_boot: n }) by {
        assert(!ipc_line_denotes(s, None));
    }
}

/// A string without the separator is one field.
pub proof fn lemma_split_no_sep(s: Seq<u8>, sep: u8)
    requires
        forall|i: int| 0 <= i < s.len() ==> s[i] != sep,
    ensures
        split_spec(s, sep) == seq![s],
    decreases s.len(),
{
    if s.len() > 0 {
        assert(s[s.len() - 1] != sep);
        lemma_split_no_sep(s.drop_last(), sep);
        assert(s.drop_last().push(s.last()) =~= s);
        assert(seq![s.drop_last()].update(0, s.drop_last().push(s.last())) =~= seq![s]);
    } else {
        assert(s =~= Seq::<u8>::empty());
    }
}

/// The frame markers the scripts emit parse back to the markers.
pub proof fn lemma_marker_round_trip()
    ensures
        marker_spec(crate::lits::lit_marker_start() + seq![32u8, 109, 97, 112, 32, 115, 116, 97, 116, 105, 115, 116, 105, 99, 115]) == Some(Marker::Start),
        marker_spec(crate::lits::lit_marker_end() + seq![32u8, 109, 97, 112, 32, 115, 116, 97, 116, 105, 115, 116, 105, 99, 115]) == Some(Marker::End),
{
    let a = crate::lits::lit_marker_start() + seq![32u8, 109, 97, 112, 32, 115, 116, 97, 116, 105, 115, 116, 105, 99, 115];
    let b = crate::lits::lit_marker_end() + seq![32u8, 109, 97, 112, 32, 115, 116, 97, 116, 105, 115, 116, 105, 99, 115];
    assert(a.subrange(0, 8) =~= crate::lits::lit_marker_start());
    assert(b.subrange(0, 6) =~= crate::lits::lit_marker_end());
    assert(b.subrange(0, 8)[3] != crate::lits::lit_marker_start()[3]);
}

/// Hexadecimal text reads back as the number it was written from.
pub proof fn lemma_hex_round_trip(n: nat)
    ensures
        hex_text(n).len() > 0,
        all_hex(hex_text(n)),
        hex_value(hex_text(n)) == n,
        hex_text(n)[0] != 120,
    decreases n,
{
    if n >= 16 {
        lemma_hex_round_trip(n / 16);
        let t = hex_text(n);
        assert(t.drop_last() =~= hex_text(n / 16));
        assert(n % 16 < 16);
        assert(hex_digit(hex_char(n % 16)) == n % 16);
        assert forall|i: int| 0 <= i < t.len() implies hex_digit(#[trigger] t[i]) >= 0 by {
            if i < t.len() - 1 {
                assert(t[i] == hex_text(n / 16)[i]);
            }
        }
        assert((n / 16) * 16 + n % 16 == n) by (nonlinear_arith);
        assert(hex_value(t) == hex_value(t.drop_last()) * 16 + hex_digit(t.last()) as nat);
        assert(t[0] == hex_text(n / 16)[0]);
    } else {
        assert(hex_digit(hex_char(n)) == n);
        assert(hex_text(n).drop_last() =~= Seq::<u8>::empty());
        assert(hex_value(hex_text(n)) == hex_value(hex_text(n).drop_last()) * 16 + hex_digit(hex_text(n).last()) as nat);
    }
}

/// Fields joined by `sep`.
pub open spec fn join(fs: Seq<Seq<u8>>, sep: u8) -> Seq<u8>
    decreases fs.len(),
{
    if fs.len() <= 1 {
        if fs.len() == 0 { Seq::empty() } else { fs[0] }
    } else {
        join(fs.drop_last(), sep) + seq![sep] + fs.last()
    }
}

/// Fields without the separator, joined by it, split back into the same fields.
pub proof fn lemma_split_join(fs: Seq<Seq<u8>>, sep: u8)
    requires
        fs.len() >= 1,
        forall|k: int, i: int| 0 <= k < fs.len() && 0 <= i < fs[k].len() ==> fs[k][i] != sep,
    ensures
        split_spec(join(fs, sep), sep) == fs,
    decreases fs.len(),
{
    if fs.len() == 1 {
        lemma_split_no_sep(fs[0], sep);
        assert(seq![fs[0]] =~= fs);
    } else {
        lemma_split_join(fs.drop_last(), sep);
        let b = fs.last();
        assert(forall|i: int| 0 <= i < b.len() ==> b[i] != sep) by {
            assert forall|i: int| 0 <= i < b.len() implies b[i] != sep by {
                assert(fs[fs.len() - 1][i] != sep);
            }
        }
        lemma_split_append(join(fs.drop_last(), sep), sep, b);
        assert(fs.drop_last().push(b) =~= fs);
    }
}

/// `0x` and the hexadecimal text of `n`.
pub open spec fn hex_field(n: u64) -> Seq<u8> {
    seq![48u8, 120] + hex_text(n as nat)
}

/// Text without tabs.
pub open spec fn tab_free(s: Seq<u8>) -> bool {
    forall|i: int| 0 <= i < s.len() ==> s[i] != 9
}

/// The fields of the `EpollAdd` line the IPC script emits for an inode target.
pub open spec fn epoll_add_fields(comm: Seq<u8>, tid: u64, event_poll: u64, fs: Seq<u8>, device: u32, inode_id: u64, ns: u64, c: u64) -> Seq<Seq<u8>> {
    seq![
        lit_epoll_add(),
        comm,
        dec_text(tid as nat),
        hex_field(event_poll),
        fs,
        dec_text(device as nat),
        dec_text(inode_id as nat),
        dec_text(ns as nat),
        dec_text(c as nat),
    ]
}

proof fn lemma_dec_tab_free(n: nat)
    ensures
        tab_free(dec_text(n)),
{
    lemma_dec_round_trip(n);
    assert forall|i: int| 0 <= i < dec_text(n).len() implies dec_text(n)[i] != 9 by {
        assert(is_digit(dec_text(n)[i]));
    }
}

proof fn lemma_hex_field(n: u64)
    ensures
        tab_free(hex_field(n)),
        hex_fits(hex_field(n)),
        hex_value(strip_0x(hex_field(n))) == n,
{
    lemma_hex_round_trip(n as nat);
    let h = hex_field(n);
    assert(strip_0x(h) =~= hex_text(n as nat));
    assert forall|i: int| 0 <= i < h.len() implies h[i] != 9 by {
        if i >= 2 {
            assert(h[i] == hex_text(n as nat)[i - 2]);
            assert(hex_digit(hex_text(n as nat)[i - 2]) >= 0);
        }
    }
}

/// An `EpollAdd` line the IPC script emits for an inode target parses back to exactly the
/// event it was emitted for (the command and file-system names hold no tab, and the file
/// system is not `anon_inodefs`).
pub proof fn lemma_epoll_add_round_trip(comm: Seq<u8>, tid: u64, event_poll: u64, fs: Seq<u8>, device: u32, inode_id: u64, ns: u64, c: u64)
    requires
        tab_free(comm),
        tab_free(fs),
        fs != lit_anon_inodefs(),
    ensures
        forall|e: IpcBpfEvent| ipc_line_denotes(join(epoll_add_fields(comm, tid, event_poll, fs, device, inode_id, ns, c), 9), Some(e)) <==> match e {
            IpcBpfEvent::EpollItemAdd { comm: ec, tid: et, event_poll: ep, fs: ef, target_file, ns_since_boot, contrib_snapshot } =>
                ec@ == comm && et == tid && ep == event_poll && ef@ == fs && target_view(target_file) == (1u8, Seq::<u8>::empty(), device as u64, inode_id)
                && ns_since_boot == ns && contrib_snapshot == c,
            _ => false,
        },
{
    let fields = epoll_add_fields(comm, tid, event_poll, fs, device, inode_id, ns, c);
    let line = join(fields, 9);
    lemma_dec_tab_free(tid as nat);
    lemma_dec_tab_free(device as nat);
    lemma_dec_tab_free(inode_id as nat);
    lemma_dec_tab_free(ns as nat);
    lemma_dec_tab_free(c as nat);
    lemma_hex_field(event_poll);
    lemma_dec_round_trip(tid as nat);
    lemma_dec_round_trip(device as nat);
    lemma_dec_round_trip(inode_id as nat);
    lemma_dec_round_trip(ns as nat);
    lemma_dec_round_trip(c as nat);
    assert forall|k: int, i: int| 0 <= k < fields.len() && 0 <= i < fields[k].len() implies fields[k][i] != 9 by {
        if k == 0 {
            assert(fields[0] == lit_epoll_add());
        }
    }
    lemma_split_join(fields, 9);
    let f = split_spec(line, 9);
    assert(f == fields);
    let tag = lit_epoll_add();
    assert(trim_end_spec(tag) == tag);
    assert(trim_start_spec(tag) == tag);
    assert(trim_spec(f[0]) == tag);
    assert(fu64(f, 2) == Some(tid));
    assert(fhex(f, 3) == Some(event_poll));
    assert(fu32(f, 5) == Some(device));
    assert(fu64(f, 6) == Some(inode_id));
    assert(fu64(f, 7) == Some(ns));
    assert(fu64(f, 8) == Some(c));
    assert(line.len() > 0 && line[0] == 69) by {
        lemma_join_starts(fields, 9);
    }
    assert(!starts_with_spec(line, seq![61u8, 62])) by {
        assert(line.subrange(0, 2)[0] == 69);
    }
}

/// The fields of the `EpollRemove` line the IPC script emits for an inode target.
pub open spec fn epoll_remove_fields(comm: Seq<u8>, tid: u64, event_poll: u64, fs: Seq<u8>, device: u32, inode_id: u64, ns: u64, c: u64) -> Seq<Seq<u8>> {
    seq![
        lit_epoll_remove(),
        comm,
        dec_text(tid as nat),
        hex_field(event_poll),
        fs,
        dec_text(device as nat),
        dec_text(inode_id as nat),
        dec_text(ns as nat),
        dec_text(c as nat),
    ]
}

/// An `EpollRemove` line the IPC script emits for an inode target parses back to exactly the
/// event it was emitted for (the command and file-system names hold no tab, and the file
/// system is not `anon_inodefs`).
pub proof fn lemma_epoll_remove_round_trip(comm: Seq<u8>, tid: u64, event_poll: u64, fs: Seq<u8>, device: u32, inode_id: u64, ns: u64, c: u64)
    requires
        tab_free(comm),
        tab_free(fs),
        fs != lit_anon_inodefs(),
    ensures
        forall|e: IpcBpfEvent| ipc_line_denotes(join(epoll_remove_fields(comm, tid, event_poll, fs, device, inode_id, ns, c), 9), Some(e)) <==> match e {
            IpcBpfEvent::EpollItemRemove { comm: ec, tid: et, event_poll: ep, fs: ef, target_file, ns_since_boot, contrib_snapshot } =>
                ec@ == comm && et == tid && ep == event_poll && ef@ == fs && target_view(target_file) == (1u8, Seq::<u8>::empty(), device as u64, inode_id)
                && ns_since_boot == ns && contrib_snapshot == c,
            _ => false,
        },
{
    let fields = epoll_remove_fields(comm, tid, event_poll, fs, device, inode_id, ns, c);
    let line = join(fields, 9);
    lemma_dec_tab_free(tid as nat);
    lemma_dec_tab_free(device as nat);
    lemma_dec_tab_free(inode_id as nat);
    lemma_dec_tab_free(ns as nat);
    lemma_dec_tab_free(c as nat);
    lemma_hex_field(event_poll);
    lemma_dec_round_trip(tid as nat);
    lemma_dec_round_trip(device as nat);
    lemma_dec_round_trip(inode_id as nat);
    lemma_dec_round_trip(ns as nat);
    lemma_dec_round_trip(c as nat);
    assert forall|k: int, i: int| 0 <= k < fields.len() && 0 <= i < fields[k].len() implies fields[k][i] != 9 by {
        if k == 0 {
            assert(fields[0] == lit_epoll_remove());
        }
    }
    lemma_split_join(fields, 9);
    let f = split_spec(line, 9);
    assert(f == fields);
    let tag = lit_epoll_remove();
    assert(trim_end_spec(tag) == tag);
    assert(trim_start_spec(tag) == tag);
    assert(trim_spec(f[0]) == tag);
    assert(fu64(f, 2) == Some(tid));
    assert(fhex(f, 3) == Some(event_poll));
    assert(fu32(f, 5) == Some(device));
    assert(fu64(f, 6) == Some(inode_id));
    assert(fu64(f, 7) == Some(ns));
    assert(fu64(f, 8) == Some(c));
    assert(line.len() > 0 && line[0] == 69) by {
        lemma_join_starts(fields, 9);
    }
    assert(!starts_with_spec(line, seq![61u8, 62])) by {
        assert(line.subrange(0, 2)[0] == 69);
    }
}

/// The fields of the `EpiPoll` line the IPC script emits for an inode target.
pub open spec fn epoll_item_fields(comm: Seq<u8>, tid: u64, event_poll: u64, fs: Seq<u8>, device: u32, inode_id: u64, ns: u64, c: u64) -> Seq<Seq<u8>> {
    seq![
        lit_epi_poll(),
        comm,
        dec_text(tid as nat),
        hex_field(event_poll),
        fs,
        dec_text(device as nat),
        dec_text(inode_id as nat),
        dec_text(ns as nat),
        dec_text(c as nat),
    ]
}

/// An `EpiPoll` line the IPC script emits for an inode target parses back to exactly the
/// event it was emitted for (the command and file-system names hold no tab, and the file
/// system is not `anon_inodefs`).
pub proof fn lemma_epoll_item_round_trip(comm: Seq<u8>, tid: u64, event_poll: u64, fs: Seq<u8>, device: u32, inode_id: u64, ns: u64, c: u64)
    requires
        tab_free(comm),
        tab_free(fs),
        fs != lit_anon_inodefs(),
    ensures
        forall|e: IpcBpfEvent| ipc_line_denotes(join(epoll_item_fields(comm, tid, event_poll, fs, device, inode_id, ns, c), 9), Some(e)) <==> match e {
            IpcBpfEvent::EpollItem { comm: ec, tid: et, event_poll: ep, fs: ef, target_file, ns_since_boot, contrib_snapshot } =>
                ec@ == comm && et == tid && ep == event_poll && ef@ == fs && target_view(target_file) == (1u8, Seq::<u8>::empty(), device as u64, inode_id)
                && ns_since_boot == ns && contrib_snapshot == c,
            _ => false,
        },
{
    let fields = epoll_item_fields(comm, tid, event_poll, fs, device, inode_id, ns, c);
    let line = join(fields, 9);
    lemma_dec_tab_free(tid as nat);
    lemma_dec_tab_free(device as nat);
    lemma_dec_tab_free(inode_id as nat);
    lemma_dec_tab_free(ns as nat);
    lemma_dec_tab_free(c as nat);
    lemma_hex_field(event_poll);
    lemma_dec_round_trip(tid as nat);
    lemma_dec_round_trip(device as nat);
    lemma_dec_round_trip(inode_id as nat);
    lemma_dec_round_trip(ns as nat);
    lemma_dec_round_trip(c as nat);
    assert forall|k: int, i: int| 0 <= k < fields.len() && 0 <= i < fields[k].len() implies fields[k][i] != 9 by {
        if k == 0 {
            assert(fields[0] == lit_epi_poll());
        }
    }
    lemma_split_join(fields, 9);
    let f = split_spec(line, 9);
    assert(f == fields);
    let tag = lit_epi_poll();
    assert(trim_end_spec(tag) == tag);
    assert(trim_start_spec(tag) == tag);
    assert(trim_spec(f[0]) == tag);
    assert(fu64(f, 2) == Some(tid));
    assert(fhex(f, 3) == Some(event_poll));
    assert(fu32(f, 5) == Some(device));
    assert(fu64(f, 6) == Some(inode_id));
    assert(fu64(f, 7) == Some(ns));
    assert(fu64(f, 8) == Some(c));
    assert(line.len() > 0 && line[0] == 69) by {
        lemma_join_starts(fields, 9);
    }
    assert(!starts_with_spec(line, seq![61u8, 62])) by {
        assert(line.subrange(0, 2)[0] == 69);
    }
}

/// A join starts with its first field.
proof fn lemma_join_starts(fs: Seq<Seq<u8>>, sep: u8)
    requires
        fs.len() >= 1,
        fs[0].len() > 0,
    ensures
        join(fs, sep).len() >= fs[0].len(),
        join(fs, sep)[0] == fs[0][0],
    decreases fs.len(),
{
    if fs.len() > 1 {
        lemma_join_starts(fs.drop_last(), sep);
        assert(fs.drop_last()[0] == fs[0]);
    }
}

/// Text without `,`.
pub open spec fn comma_free(s: Seq<u8>) -> bool {
    forall|i: int| 0 <= i < s.len() ==> s[i] != 44
}

/// Fields joined by `, `.
pub open spec fn list_join(fs: Seq<Seq<u8>>) -> Seq<u8>
    decreases fs.len(),
{
    if fs.len() <= 1 {
        if fs.len() == 0 { Seq::empty() } else { fs[0] }
    } else {
        list_join(fs.drop_last()) + seq![44u8, 32] + fs.last()
    }
}

proof fn lemma_list_append(a: Seq<u8>, b: Seq<u8>)
    requires
        comma_free(b),
    ensures
        list_spec(a + seq![44u8, 32] + b) == list_spec(a).push(b),
    decreases b.len(),
{
    let s = a + seq![44u8, 32] + b;
    if b.len() == 0 {
        assert(s.subrange(0, s.len() - 2) =~= a);
        assert(b =~= Seq::<u8>::empty());
        assert(s[s.len() - 2] == 44 && s.last() == 32);
    } else {
        lemma_list_append(a, b.drop_last());
        assert(s.drop_last() =~= a + seq![44u8, 32] + b.drop_last());
        assert(s.last() == b.last());
        if b.len() >= 2 {
            assert(s[s.len() - 2] == b[b.len() - 2]);
        } else {
            assert(s[s.len() - 2] == 32);
        }
        let p = list_spec(s.drop_last());
        assert(p.update(p.len() - 1, p.last().push(s.last())) =~= list_spec(a).push(b)) by {
            assert(b.drop_last().push(b.last()) =~= b);
        }
    }
}

proof fn lemma_list_single(s: Seq<u8>)
    requires
        comma_free(s),
    ensures
        list_spec(s) == seq![s],
    decreases s.len(),
{
    if s.len() > 0 {
        lemma_list_single(s.drop_last());
        if s.len() >= 2 {
            assert(s[s.len() - 2] != 44);
        }
        assert(s.drop_last().push(s.last()) =~= s);
        assert(seq![s.drop_last()].update(0, s.drop_last().push(s.last())) =~= seq![s]);
    } else {
        assert(s =~= Seq::<u8>::empty());
    }
}

/// Comma-free fields joined by `, ` split back into the same fields.
pub proof fn lemma_list_split_join(fs: Seq<Seq<u8>>)
    requires
        fs.len() >= 1,
        forall|k: int| 0 <= k < fs.len() ==> comma_free(#[trigger] fs[k]),
    ensures
        list_spec(list_join(fs)) == fs,
    decreases fs.len(),
{
    if fs.len() == 1 {
        lemma_list_single(fs[0]);
        assert(seq![fs[0]] =~= fs);
    } else {
        assert forall|k: int| 0 <= k < fs.drop_last().len() implies comma_free(#[trigger] fs.drop_last()[k]) by {
            assert(fs.drop_last()[k] == fs[k]);
        }
        lemma_list_split_join(fs.drop_last());
        assert(comma_free(fs[fs.len() - 1]));
        lemma_list_append(list_join(fs.drop_last()), fs.last());
        assert(fs.drop_last().push(fs.last()) =~= fs);
    }
}

/// The `wait_elapsed` summary line the futex script emits.
pub open spec fn wait_elapsed_line(tid: u64, root_pid: u64, uaddr: Seq<u8>, total: u64, count: u64) -> Seq<u8> {
    seq![64u8] + lit_wait_elapsed() + seq![91u8]
        + list_join(seq![dec_text(tid as nat), dec_text(root_pid as nat), uaddr])
        + seq![93u8, 58, 32]
        + (seq![40u8] + list_join(seq![dec_text(total as nat), dec_text(count as nat)]) + seq![41u8])
}

proof fn lemma_dec_comma_free(n: nat)
    ensures
        comma_free(dec_text(n)),
        forall|i: int| 0 <= i < dec_text(n).len() ==> dec_text(n)[i] != 93 && dec_text(n)[i] != 91,
{
    lemma_dec_round_trip(n);
    assert forall|i: int| 0 <= i < dec_text(n).len() implies dec_text(n)[i] != 44 && dec_text(n)[i] != 93 && dec_text(n)[i] != 91 by {
        assert(is_digit(dec_text(n)[i]));
    }
}

/// The map name, key and value of a summary line whose name holds no `[` and whose value
/// holds no `]`.
proof fn lemma_summary_parts(name: Seq<u8>, key: Seq<u8>, value: Seq<u8>)
    requires
        name.len() >= 1,
        forall|i: int| 0 <= i < name.len() ==> name[i] != 91,
        forall|i: int| 0 <= i < value.len() ==> value[i] != 93,
    ensures
        summary_parts(seq![64u8] + name + seq![91u8] + key + seq![93u8, 58, 32] + value) == Some((name, key, value)),
{
    let s = seq![64u8] + name + seq![91u8] + key + seq![93u8, 58, 32] + value;
    let b: int = 1 + name.len() as int;
    let k: int = b + 1 + key.len() as int;
    assert(s[b] == 91);
    assert forall|i: int| 1 <= i < b implies s[i] != 91 by {
        assert(s[i] == name[i - 1]);
    }
    lemma_find_first_at(s, 91, 1, b);
    assert(is_close_at(s, k));
    assert forall|j: int| k < j < s.len() implies !is_close_at(s, j) by {
        if j == k + 1 || j == k + 2 {
        } else {
            assert(s[j] == value[j - k - 3]);
        }
    }
    lemma_find_last_close_at(s, s.len() as int, k);
    assert(s.subrange(1, b) =~= name);
    assert(s.subrange(b + 1, k) =~= key);
    assert(s.subrange(k + 3, s.len() as int) =~= value);
}

proof fn lemma_find_first_at(s: Seq<u8>, c: u8, i: int, b: int)
    requires
        0 <= i <= b < s.len(),
        s[b] == c,
        forall|j: int| i <= j < b ==> s[j] != c,
    ensures
        find_first(s, c, i) == b,
    decreases b - i,
{
    if i < b {
        lemma_find_first_at(s, c, i + 1, b);
    }
}

proof fn lemma_find_last_close_at(s: Seq<u8>, n: int, k: int)
    requires
        0 <= k < n <= s.len(),
        is_close_at(s, k),
        forall|j: int| k < j < n ==> !is_close_at(s, j),
    ensures
        find_last_close(s, n) == k,
    decreases n - k,
{
    if n - 1 > k {
        lemma_find_last_close_at(s, n - 1, k);
    }
}

/// A `wait_elapsed` summary line of the futex script parses back to exactly the event it
/// was emitted for (the futex word's text holds no `,`, `[` or `]`).
#[verifier::spinoff_prover]
#[verifier::rlimit(60)]
pub proof fn lemma_wait_elapsed_round_trip(tid: u64, root_pid: u64, uaddr: Seq<u8>, total: u64, count: u64)
    requires
        forall|i: int| 0 <= i < uaddr.len() ==> uaddr[i] != 44 && uaddr[i] != 91 && uaddr[i] != 93,
    ensures
        forall|e: FutexBpfEvent| futex_line_denotes(wait_elapsed_line(tid, root_pid, uaddr, total, count), Some(e)) <==> match e {
            FutexBpfEvent::WaitElapsed { tid: t, root_pid: r, uaddr: u, total_interval_wait_ns: w, count_interval_wait: c } =>
                t == tid && r == root_pid && u@ == uaddr && w == total && c == count,
            _ => false,
        },
{
    lemma_dec_comma_free(tid as nat);
    lemma_dec_comma_free(root_pid as nat);
    lemma_dec_comma_free(total as nat);
    lemma_dec_comma_free(count as nat);
    lemma_dec_round_trip(tid as nat);
    lemma_dec_round_trip(root_pid as nat);
    lemma_dec_round_trip(total as nat);
    lemma_dec_round_trip(count as nat);
    let kf = seq![dec_text(tid as nat), dec_text(root_pid as nat), uaddr];
    let vf = seq![dec_text(total as nat), dec_text(count as nat)];
    assert forall|k: int| 0 <= k < kf.len() implies comma_free(#[trigger] kf[k]) by {}
    assert forall|k: int| 0 <= k < vf.len() implies comma_free(#[trigger] vf[k]) by {}
    lemma_list_split_join(kf);
    lemma_list_split_join(vf);
    let key = list_join(kf);
    let inner = list_join(vf);
    let value = seq![40u8] + inner + seq![41u8];
    assert(inner =~= dec_text(total as nat) + seq![44u8, 32] + dec_text(count as nat)) by {
        assert(vf.drop_last() =~= seq![dec_text(total as nat)]);
        assert(list_join(seq![dec_text(total as nat)]) == dec_text(total as nat));
        assert(vf.last() == dec_text(count as nat));
        assert(list_join(vf) == list_join(vf.drop_last()) + seq![44u8, 32] + vf.last());
    }
    assert forall|i: int| 0 <= i < value.len() implies value[i] != 93 by {
        if 1 <= i < value.len() - 1 {
            assert(value[i] == inner[i - 1]);
            let d1 = dec_text(total as nat);
            if i - 1 < d1.len() {
                assert(inner[i - 1] == d1[i - 1]);
            } else if i - 1 >= d1.len() + 2 {
                assert(inner[i - 1] == dec_text(count as nat)[i - 1 - d1.len() - 2]);
            }
        }
    }
    let name = lit_wait_elapsed();
    assert forall|i: int| 0 <= i < name.len() implies name[i] != 91 by {}
    lemma_summary_parts(name, key, value);
    let s = wait_elapsed_line(tid, root_pid, uaddr, total, count);
    assert(s =~= seq![64u8] + name + seq![91u8] + key + seq![93u8, 58, 32] + value);
    assert(value.subrange(1, value.len() - 1) =~= inner);
    assert(tuple_spec(value) == Some(vf));
    assert(s[0] == 64);
}

/// Text without byte `c`.
pub open spec fn free_of(s: Seq<u8>, c: u8) -> bool {
    forall|i: int| 0 <= i < s.len() ==> s[i] != c
}

/// Fields without `c` joined by `, ` hold no `c` (when `c` is neither `,` nor a space).
proof fn lemma_list_join_free(fs: Seq<Seq<u8>>, c: u8)
    requires
        c != 44 && c != 32,
        forall|k: int| 0 <= k < fs.len() ==> free_of(#[trigger] fs[k], c),
    ensures
        free_of(list_join(fs), c),
    decreases fs.len(),
{
    if fs.len() > 1 {
        lemma_list_join_free(fs.drop_last(), c);
        assert(free_of(fs[fs.len() - 1], c));
        let a = list_join(fs.drop_last());
        let j = a + seq![44u8, 32] + fs.last();
        assert forall|i: int| 0 <= i < j.len() implies j[i] != c by {
            if i < a.len() {
                assert(j[i] == a[i]);
            } else if i >= a.len() + 2 {
                assert(j[i] == fs.last()[i - a.len() - 2]);
            }
        }
    } else if fs.len() == 1 {
        assert(free_of(fs[0], c));
    }
}

proof fn lemma_dec_free(n: nat, c: u8)
    requires
        !(48 <= c <= 57),
    ensures
        free_of(dec_text(n), c),
        comma_free(dec_text(n)),
{
    lemma_dec_round_trip(n);
    lemma_dec_comma_free(n);
    assert forall|i: int| 0 <= i < dec_text(n).len() implies dec_text(n)[i] != c by {
        assert(is_digit(dec_text(n)[i]));
    }
}

/// The `wait_pending` summary line the futex script emits.
pub open spec fn wait_pending_line(tid: u64, root_pid: u64, uaddr: Seq<u8>, ns: u64) -> Seq<u8> {
    seq![64u8] + lit_wait_pending() + seq![91u8] + dec_text(tid as nat) + seq![93u8, 58, 32]
        + (seq![40u8] + list_join(seq![dec_text(ns as nat), dec_text(root_pid as nat), uaddr]) + seq![41u8])
}

/// A `wait_pending` summary line of the futex script parses back to exactly the event it
/// was emitted for (the futex word's text holds no `,` or `]`).
pub proof fn lemma_wait_pending_round_trip(tid: u64, root_pid: u64, uaddr: Seq<u8>, ns: u64)
    requires
        comma_free(uaddr),
        free_of(uaddr, 93),
    ensures
        forall|e: FutexBpfEvent| futex_line_denotes(wait_pending_line(tid, root_pid, uaddr, ns), Some(e)) <==> match e {
            FutexBpfEvent::WaitPending { tid: t, root_pid: r, uaddr: u, ns_since_boot: w } => t == tid && r == root_pid && u@ == uaddr && w == ns,
            _ => false,
        },
{
    lemma_dec_free(tid as nat, 93);
    lemma_dec_free(root_pid as nat, 93);
    lemma_dec_free(ns as nat, 93);
    lemma_dec_round_trip(tid as nat);
    lemma_dec_round_trip(root_pid as nat);
    lemma_dec_round_trip(ns as nat);
    let key = dec_text(tid as nat);
    let vf = seq![dec_text(ns as nat), dec_text(root_pid as nat), uaddr];
    assert forall|k: int| 0 <= k < vf.len() implies comma_free(#[trigger] vf[k]) by {}
    assert forall|k: int| 0 <= k < vf.len() implies free_of(#[trigger] vf[k], 93) by {}
    lemma_list_split_join(vf);
    lemma_list_join_free(vf, 93);
    lemma_list_single(key);
    let inner = list_join(vf);
    let value = seq![40u8] + inner + seq![41u8];
    assert forall|i: int| 0 <= i < value.len() implies value[i] != 93 by {
        if 1 <= i < value.len() - 1 {
            assert(value[i] == inner[i - 1]);
        }
    }
    let name = lit_wait_pending();
    assert forall|i: int| 0 <= i < name.len() implies name[i] != 91 by {}
    lemma_summary_parts(name, key, value);
    let s = wait_pending_line(tid, root_pid, uaddr, ns);
    assert(s =~= seq![64u8] + name + seq![91u8] + key + seq![93u8, 58, 32] + value);
    assert(value.subrange(1, value.len() - 1) =~= inner);
    assert(tuple_spec(value) == Some(vf));
    assert(s[0] == 64);
}

/// The `wake` summary line the futex script emits.
pub open spec fn wake_line(tid: u64, root_pid: u64, uaddr: Seq<u8>, count: u64) -> Seq<u8> {
    seq![64u8] + lit_wake() + seq![91u8] + list_join(seq![dec_text(tid as nat), dec_text(root_pid as nat), uaddr]) + seq![93u8, 58, 32]
        + dec_text(count as nat)
}

/// A `wake` summary line of the futex script parses back to exactly the event it was
/// emitted for (the futex word's text holds no `,`, `[` or `]`).
pub proof fn lemma_wake_round_trip(tid: u64, root_pid: u64, uaddr: Seq<u8>, count: u64)
    requires
        comma_free(uaddr),
    ensures
        forall|e: FutexBpfEvent| futex_line_denotes(wake_line(tid, root_pid, uaddr, count), Some(e)) <==> match e {
            FutexBpfEvent::Wake { tid: t, root_pid: r, uaddr: u, count: c } => t == tid && r == root_pid && u@ == uaddr && c == count,
            _ => false,
        },
{
    lemma_dec_free(tid as nat, 93);
    lemma_dec_free(root_pid as nat, 93);
    lemma_dec_free(count as nat, 93);
    lemma_dec_round_trip(tid as nat);
    lemma_dec_round_trip(root_pid as nat);
    lemma_dec_round_trip(count as nat);
    let kf = seq![dec_text(tid as nat), dec_text(root_pid as nat), uaddr];
    assert forall|k: int| 0 <= k < kf.len() implies comma_free(#[trigger] kf[k]) by {}
    lemma_list_split_join(kf);
    let value = dec_text(count as nat);
    lemma_list_single(value);
    let name = lit_wake();
    assert forall|i: int| 0 <= i < name.len() implies name[i] != 91 by {}
    lemma_summary_parts(name, list_join(kf), value);
    let s = wake_line(tid, root_pid, uaddr, count);
    assert(s =~= seq![64u8] + name + seq![91u8] + list_join(kf) + seq![93u8, 58, 32] + value);
    assert(s[0] == 64);
}

/// The `epoll_map` (`pending` false) or `epoll_pending` summary line the IPC script emits.
pub open spec fn epoll_summary_line(pending: bool, event_poll: u64, n: u64) -> Seq<u8> {
    seq![64u8] + (if pending { lit_epoll_pending() } else { lit_epoll_map() }) + seq![91u8] + hex_field(event_poll) + seq![93u8, 58, 32]
        + dec_text(n as nat)
}

/// An `epoll_map` or `epoll_pending` summary line of the IPC script parses back to exactly
/// the event it was emitted for.
pub proof fn lemma_epoll_summary_round_trip(pending: bool, event_poll: u64, n: u64)
    ensures
        forall|e: IpcBpfEvent| ipc_line_denotes(epoll_summary_line(pending, event_poll, n), Some(e)) <==> e == (if pending {
            IpcBpfEvent::EpollMapPending { event_poll, ns_since_boot: n }
        } else {
            IpcBpfEvent::EpollMapCached { event_poll, total_ns: n }
        }),
{
    lemma_hex_field(event_poll);
    lemma_dec_free(n as nat, 93);
    lemma_dec_round_trip(n as nat);
    let name = if pending { lit_epoll_pending() } else { lit_epoll_map() };
    assert forall|i: int| 0 <= i < name.len() implies name[i] != 91 by {}
    let key = hex_field(event_poll);
    let value = dec_text(n as nat);
    lemma_summary_parts(name, key, value);
    let s = epoll_summary_line(pending, event_poll, n);
    assert(s =~= seq![64u8] + name + seq![91u8] + key + seq![93u8, 58, 32] + value);
    assert(fhex(seq![key], 0) == Some(event_poll));
    assert(fu64(seq![value], 0) == Some(n));
    assert(s[0] == 64);
}

/// The decimal text of a signed number, with a leading `-` when negative.
pub open spec fn int_text(x: i64) -> Seq<u8> {
    if x < 0 {
        seq![45u8] + dec_text((-x) as nat)
    } else {
        dec_text(x as nat)
    }
}

proof fn lemma_int_round_trip(x: i64)
    ensures
        int_fits(int_text(x)),
        int_value(int_text(x)) == x,
        comma_free(int_text(x)),
        free_of(int_text(x), 93),
{
    if x < 0 {
        lemma_dec_free((-x) as nat, 93);
        lemma_dec_round_trip((-x) as nat);
        let t = int_text(x);
        assert(t.subrange(1, t.len() as int) =~= dec_text((-x) as nat));
        assert forall|i: int| 0 <= i < t.len() implies t[i] != 44 && t[i] != 93 by {
            if i > 0 {
                assert(t[i] == dec_text((-x) as nat)[i - 1]);
            }
        }
    } else {
        lemma_dec_free(x as nat, 93);
        lemma_dec_round_trip(x as nat);
        assert(is_digit(dec_text(x as nat)[0]));
    }
}

/// Text with no whitespace.
pub open spec fn ws_free(s: Seq<u8>) -> bool {
    forall|i: int| 0 <= i < s.len() ==> !is_ws(s[i])
}

/// The `inode_map` (`pending` false, value `(total, count)`) or `inode_pending` (value `n`)
/// summary line the IPC script emits.
pub open spec fn inode_summary_line(pending: bool, comm: Seq<u8>, tid: u64, fs: Seq<u8>, sb_id: u32, inode_id: i64, n: u64, count: u64) -> Seq<u8> {
    seq![64u8] + (if pending { lit_inode_pending() } else { lit_inode_map() }) + seq![91u8]
        + list_join(seq![comm, dec_text(tid as nat), fs, dec_text(sb_id as nat), int_text(inode_id)]) + seq![93u8, 58, 32]
        + (if pending { dec_text(n as nat) } else { seq![40u8] + list_join(seq![dec_text(n as nat), dec_text(count as nat)]) + seq![41u8] })
}

/// An `inode_map` or `inode_pending` summary line of the IPC script parses back to exactly
/// the event it was emitted for (the command name holds no `,`; the file-system name holds
/// no `,` and no whitespace).
pub proof fn lemma_inode_summary_round_trip(pending: bool, comm: Seq<u8>, tid: u64, fs: Seq<u8>, sb_id: u32, inode_id: i64, n: u64, count: u64)
    requires
        comma_free(comm),
        comma_free(fs),
        ws_free(fs),
    ensures
        forall|e: IpcBpfEvent| ipc_line_denotes(inode_summary_line(pending, comm, tid, fs, sb_id, inode_id, n, count), Some(e)) <==> (if pending {
            match e {
                IpcBpfEvent::InodeMapPending { comm: c, tid: t, fs_type: f, sb_id: b, inode_id: i, ns_since_boot: w } =>
                    c@ == comm && t == tid && f@ == fs && b == sb_id && i == inode_id && w == n,
                _ => false,
            }
        } else {
            match e {
                IpcBpfEvent::InodeMapCached { comm: c, tid: t, fs_type: f, sb_id: b, inode_id: i, count: k, total_ns: w } =>
                    c@ == comm && t == tid && f@ == fs && b == sb_id && i == inode_id && w == n && k == count,
                _ => false,
            }
        }),
{
    lemma_dec_free(tid as nat, 93);
    lemma_dec_free(sb_id as nat, 93);
    lemma_dec_free(n as nat, 93);
    lemma_dec_free(count as nat, 93);
    lemma_dec_round_trip(tid as nat);
    lemma_dec_round_trip(sb_id as nat);
    lemma_dec_round_trip(n as nat);
    lemma_dec_round_trip(count as nat);
    lemma_int_round_trip(inode_id);
    let kf = seq![comm, dec_text(tid as nat), fs, dec_text(sb_id as nat), int_text(inode_id)];
    assert forall|k: int| 0 <= k < kf.len() implies comma_free(#[trigger] kf[k]) by {}
    lemma_list_split_join(kf);
    let key = list_join(kf);
    let vf = seq![dec_text(n as nat), dec_text(count as nat)];
    assert forall|k: int| 0 <= k < vf.len() implies comma_free(#[trigger] vf[k]) by {}
    assert forall|k: int| 0 <= k < vf.len() implies free_of(#[trigger] vf[k], 93) by {}
    lemma_list_split_join(vf);
    lemma_list_join_free(vf, 93);
    let inner = list_join(vf);
    let value = if pending { dec_text(n as nat) } else { seq![40u8] + inner + seq![41u8] };
    assert forall|i: int| 0 <= i < value.len() implies value[i] != 93 by {
        if !pending && 1 <= i < value.len() - 1 {
            assert(value[i] == inner[i - 1]);
        }
    }
    if !pending {
        assert(value.subrange(1, value.len() - 1) =~= inner);
        assert(tuple_spec(value) == Some(vf));
    }
    let name = if pending { lit_inode_pending() } else { lit_inode_map() };
    assert forall|i: int| 0 <= i < name.len() implies name[i] != 91 by {}
    lemma_summary_parts(name, key, value);
    let s = inode_summary_line(pending, comm, tid, fs, sb_id, inode_id, n, count);
    assert(s =~= seq![64u8] + name + seq![91u8] + key + seq![93u8, 58, 32] + value);
    assert(trim_end_spec(fs) == fs) by {
        if fs.len() > 0 {
            assert(!is_ws(fs[fs.len() - 1]));
        }
    }
    assert(trim_start_spec(fs) == fs) by {
        if fs.len() > 0 {
            assert(!is_ws(fs[0]));
        }
    }
    assert(trim_spec(kf[2]) == fs);
    assert(s[0] == 64);
}

/// The `NewProcess` line the IPC script emits.
pub open spec fn ipc_new_process_line(comm: Seq<u8>, pid: u64) -> Seq<u8> {
    join(seq![lit_new_process(), comm, dec_text(pid as nat)], 9)
}

/// A `NewProcess` line of the IPC script parses back to exactly the event it was emitted
/// for (the command name holds no tab).
pub proof fn lemma_ipc_new_process_round_trip(comm: Seq<u8>, pid: u64)
    requires
        tab_free(comm),
    ensures
        forall|e: IpcBpfEvent| ipc_line_denotes(ipc_new_process_line(comm, pid), Some(e)) <==> match e {
            IpcBpfEvent::NewProcess { comm: c, pid: p } => c@ == comm && p == pid,
            _ => false,
        },
{
    let fields = seq![lit_new_process(), comm, dec_text(pid as nat)];
    lemma_dec_tab_free(pid as nat);
    lemma_dec_round_trip(pid as nat);
    assert forall|k: int, i: int| 0 <= k < fields.len() && 0 <= i < fields[k].len() implies fields[k][i] != 9 by {
        if k == 0 {
            assert(fields[0] == lit_new_process());
        }
    }
    lemma_split_join(fields, 9);
    let line = join(fields, 9);
    let f = split_spec(line, 9);
    assert(f == fields);
    let tag = lit_new_process();
    assert(trim_end_spec(tag) == tag);
    assert(trim_start_spec(tag) == tag);
    assert(trim_spec(f[0]) == tag);
    assert(fu64(f, 2) == Some(pid));
    assert(line.len() > 0 && line[0] == 78) by {
        lemma_join_starts(fields, 9);
    }
    assert(!starts_with_spec(line, seq![61u8, 62])) by {
        assert(line.subrange(0, 2)[0] == 78);
    }
}

/// A dotted quad reads back as the four octets it was written from.
proof fn lemma_quad_round_trip(h: Seq<u8>)
    requires
        h.len() == 4,
    ensures
        ipv4_spec(crate::ipc_stats::quad_text(h)) == Some(h),
        tab_free(crate::ipc_stats::quad_text(h)),
{
    let fs = seq![dec_text(h[0] as nat), dec_text(h[1] as nat), dec_text(h[2] as nat), dec_text(h[3] as nat)];
    let mut k: int = 0;
    lemma_dec_free(h[0] as nat, 46);
    lemma_dec_free(h[1] as nat, 46);
    lemma_dec_free(h[2] as nat, 46);
    lemma_dec_free(h[3] as nat, 46);
    lemma_dec_round_trip(h[0] as nat);
    lemma_dec_round_trip(h[1] as nat);
    lemma_dec_round_trip(h[2] as nat);
    lemma_dec_round_trip(h[3] as nat);
    assert forall|k: int, i: int| 0 <= k < fs.len() && 0 <= i < fs[k].len() implies fs[k][i] != 46 by {
        assert(free_of(fs[k], 46));
    }
    lemma_split_join(fs, 46);
    let q = crate::ipc_stats::quad_text(h);
    assert(join(fs, 46) =~= q) by {
        let f1 = seq![fs[0]];
        let f2 = seq![fs[0], fs[1]];
        let f3 = seq![fs[0], fs[1], fs[2]];
        assert(join(f1, 46) == fs[0]);
        assert(f2.drop_last() =~= f1);
        assert(join(f2, 46) == join(f1, 46) + seq![46u8] + fs[1]);
        assert(f3.drop_last() =~= f2);
        assert(join(f3, 46) == join(f2, 46) + seq![46u8] + fs[2]);
        assert(fs.drop_last() =~= f3);
        assert(join(fs, 46) == join(f3, 46) + seq![46u8] + fs[3]);
    }
    assert(dec_fits(fs[0], 255) && dec_fits(fs[1], 255) && dec_fits(fs[2], 255) && dec_fits(fs[3], 255));
    assert(seq![dec_value(fs[0]) as u8, dec_value(fs[1]) as u8, dec_value(fs[2]) as u8, dec_value(fs[3]) as u8] =~= h);
    lemma_dec_tab_free(h[0] as nat);
    lemma_dec_tab_free(h[1] as nat);
    lemma_dec_tab_free(h[2] as nat);
    lemma_dec_tab_free(h[3] as nat);
    assert forall|i: int| 0 <= i < q.len() implies q[i] != 9 by {
        let a = dec_text(h[0] as nat);
        let b = dec_text(h[1] as nat);
        let c = dec_text(h[2] as nat);
        let d = dec_text(h[3] as nat);
        assert(q =~= a + seq![46u8] + b + seq![46u8] + c + seq![46u8] + d);
        if i < a.len() {
            assert(q[i] == a[i]);
        } else if a.len() < i < a.len() + 1 + b.len() {
            assert(q[i] == b[i - a.len() - 1]);
        } else if a.len() + 1 + b.len() < i < a.len() + 2 + b.len() + c.len() {
            assert(q[i] == c[i - a.len() - 2 - b.len()]);
        } else if i > a.len() + 2 + b.len() + c.len() {
            assert(q[i] == d[i - a.len() - 3 - b.len() - c.len()]);
        }
    }
}

/// The text fields of a connection as the IPC script emits them: the family word, then
/// the endpoints.
pub open spec fn conn_fields(c: Connection) -> Seq<Seq<u8>> {
    match c {
        Connection::Ipv4 { src_host, src_port, dst_host, dst_port } => seq![
            lit_af_inet(),
            crate::ipc_stats::quad_text(src_host@),
            dec_text(src_port as nat),
            crate::ipc_stats::quad_text(dst_host@),
            dec_text(dst_port as nat),
        ],
        Connection::Unix { src_address, dst_address } => seq![lit_af_unix(), hex_field(src_address), hex_field(dst_address)],
        Connection::Ipv6 { .. } => Seq::empty(),
    }
}

/// The `NewSocketMap` line the IPC script emits for an IPv4 or Unix socket.
pub open spec fn new_socket_map_line(fs: Seq<u8>, sb_id: u32, inode_id: u64, c: Connection) -> Seq<u8> {
    join(seq![lit_new_socket_map(), fs, dec_text(sb_id as nat), dec_text(inode_id as nat)] + conn_fields(c), 9)
}

/// A `NewSocketMap` line of the IPC script for an IPv4 or Unix socket parses back to
/// exactly the event it was emitted for (the file-system name holds no tab).
#[verifier::spinoff_prover]
#[verifier::rlimit(100)]
pub proof fn lemma_new_socket_map_round_trip(fs: Seq<u8>, sb_id: u32, inode_id: u64, c: Connection)
    requires
        tab_free(fs),
        !(c is Ipv6),
    ensures
        forall|e: IpcBpfEvent| ipc_line_denotes(new_socket_map_line(fs, sb_id, inode_id, c), Some(e)) <==> match e {
            IpcBpfEvent::NewSocketMap { fs_type, sb_id: b, inode_id: i, conn } => fs_type@ == fs && b == sb_id && i == inode_id && conn_view(conn) == conn_view(c),
            _ => false,
        },
{
    let fields = seq![lit_new_socket_map(), fs, dec_text(sb_id as nat), dec_text(inode_id as nat)] + conn_fields(c);
    lemma_dec_tab_free(sb_id as nat);
    lemma_dec_tab_free(inode_id as nat);
    lemma_dec_round_trip(sb_id as nat);
    lemma_dec_round_trip(inode_id as nat);
    match c {
        Connection::Ipv4 { src_host, src_port, dst_host, dst_port } => {
            lemma_quad_round_trip(src_host@);
            lemma_quad_round_trip(dst_host@);
            lemma_dec_tab_free(src_port as nat);
            lemma_dec_tab_free(dst_port as nat);
            lemma_dec_round_trip(src_port as nat);
            lemma_dec_round_trip(dst_port as nat);
        },
        Connection::Unix { src_address, dst_address } => {
            lemma_hex_field(src_address);
            lemma_hex_field(dst_address);
        },
        _ => {},
    }
    assert forall|k: int, i: int| 0 <= k < fields.len() && 0 <= i < fields[k].len() implies fields[k][i] != 9 by {
        if k == 0 {
            assert(fields[0] == lit_new_socket_map());
        } else if k >= 4 {
            assert(fields[k] == conn_fields(c)[k - 4]);
            if k == 4 {
                assert(conn_fields(c)[0] == lit_af_inet() || conn_fields(c)[0] == lit_af_unix());
            }
        }
    }
    lemma_split_join(fields, 9);
    let line = join(fields, 9);
    let f = split_spec(line, 9);
    assert(f == fields);
    let tag = lit_new_socket_map();
    assert(trim_end_spec(tag) == tag);
    assert(trim_start_spec(tag) == tag);
    assert(trim_spec(f[0]) == tag);
    assert(fu32(f, 2) == Some(sb_id));
    assert(fu64(f, 3) == Some(inode_id));
    assert(line.len() > 0 && line[0] == 78) by {
        lemma_join_starts(fields, 9);
    }
    assert(!starts_with_spec(line, seq![61u8, 62])) by {
        assert(line.subrange(0, 2)[0] == 78);
    }
    match c {
        Connection::Ipv4 { src_host, src_port, dst_host, dst_port } => {
            assert(f[4] == lit_af_inet());
            assert(crate::ipc::conn_spec(f, 4) == Some(conn_view(c)));
        },
        Connection::Unix { src_address, dst_address } => {
            assert(f[4] == lit_af_unix());
            assert(f[4] != lit_af_inet());
            assert(f[4] != crate::lits::lit_af_inet6());
            assert(crate::ipc::conn_spec(f, 4) == Some(conn_view(c)));
        },
        _ => {},
    }
}

/// The `AcceptEnd` (`accept`) or `ConnectEnd` line the IPC script emits for an IPv4 or
/// Unix socket.
pub open spec fn socket_end_line(accept: bool, comm: Seq<u8>, tid: u64, fs: Seq<u8>, sb_id: u32, inode_id: u64, c: Connection) -> Seq<u8> {
    join(seq![if accept { lit_accept_end() } else { lit_connect_end() }, comm, dec_text(tid as nat), fs, dec_text(sb_id as nat), dec_text(inode_id as nat)]
        + conn_fields(c), 9)
}

/// An `AcceptEnd` or `ConnectEnd` line of the IPC script for an IPv4 or Unix socket parses
/// back to exactly the event it was emitted for (the command and file-system names hold no
/// tab).
#[verifier::spinoff_prover]
#[verifier::rlimit(100)]
pub proof fn lemma_socket_end_round_trip(accept: bool, comm: Seq<u8>, tid: u64, fs: Seq<u8>, sb_id: u32, inode_id: u64, c: Connection)
    requires
        tab_free(comm),
        tab_free(fs),
        !(c is Ipv6),
    ensures
        forall|e: IpcBpfEvent| ipc_line_denotes(socket_end_line(accept, comm, tid, fs, sb_id, inode_id, c), Some(e)) <==> (if accept {
            match e {
                IpcBpfEvent::AcceptEnd { comm: m, tid: t, fs_type, sb_id: b, inode_id: i, conn } => m@ == comm && t == tid && fs_type@ == fs && b == sb_id
                    && i == inode_id && conn_view(conn) == conn_view(c),
                _ => false,
            }
        } else {
            match e {
                IpcBpfEvent::ConnectEnd { comm: m, tid: t, fs_type, sb_id: b, inode_id: i, conn } => m@ == comm && t == tid && fs_type@ == fs && b == sb_id
                    && i == inode_id && conn_view(conn) == conn_view(c),
                _ => false,
            }
        }),
{
    let tag = if accept { lit_accept_end() } else { lit_connect_end() };
    let fields = seq![tag, comm, dec_text(tid as nat), fs, dec_text(sb_id as nat), dec_text(inode_id as nat)] + conn_fields(c);
    lemma_dec_tab_free(tid as nat);
    lemma_dec_tab_free(sb_id as nat);
    lemma_dec_tab_free(inode_id as nat);
    lemma_dec_round_trip(tid as nat);
    lemma_dec_round_trip(sb_id as nat);
    lemma_dec_round_trip(inode_id as nat);
    match c {
        Connection::Ipv4 { src_host, src_port, dst_host, dst_port } => {
            lemma_quad_round_trip(src_host@);
            lemma_quad_round_trip(dst_host@);
            lemma_dec_tab_free(src_port as nat);
            lemma_dec_tab_free(dst_port as nat);
            lemma_dec_round_trip(src_port as nat);
            lemma_dec_round_trip(dst_port as nat);
        },
        Connection::Unix { src_address, dst_address } => {
            lemma_hex_field(src_address);
            lemma_hex_field(dst_address);
        },
        _ => {},
    }
    assert forall|k: int, i: int| 0 <= k < fields.len() && 0 <= i < fields[k].len() implies fields[k][i] != 9 by {
        if k == 0 {
            assert(fields[0] == tag);
        } else if k >= 6 {
            assert(fields[k] == conn_fields(c)[k - 6]);
            if k == 6 {
                assert(conn_fields(c)[0] == lit_af_inet() || conn_fields(c)[0] == lit_af_unix());
            }
        }
    }
    lemma_split_join(fields, 9);
    let line = join(fields, 9);
    let f = split_spec(line, 9);
    assert(f == fields);
    assert(trim_end_spec(tag) == tag);
    assert(trim_start_spec(tag) == tag);
    assert(trim_spec(f[0]) == tag);
    assert(fu64(f, 2) == Some(tid));
    assert(fu32(f, 4) == Some(sb_id));
    assert(fu64(f, 5) == Some(inode_id));
    assert(line.len() > 0 && (line[0] == 65 || line[0] == 67)) by {
        lemma_join_starts(fields, 9);
    }
    assert(!starts_with_spec(line, seq![61u8, 62])) by {
        assert(line.subrange(0, 2)[0] == line[0]);
    }
    match c {
        Connection::Ipv4 { .. } => {
            assert(f[6] == lit_af_inet());
            assert(crate::ipc::conn_spec(f, 6) == Some(conn_view(c)));
        },
        Connection::Unix { .. } => {
            assert(f[6] == lit_af_unix());
            assert(f[6] != lit_af_inet());
            assert(f[6] != crate::lits::lit_af_inet6());
            assert(crate::ipc::conn_spec(f, 6) == Some(conn_view(c)));
        },
        _ => {},
    }
}

} // verus!
