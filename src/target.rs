//! Targets (one per monitored thread) and the registry that discovers and drops them.
use vstd::prelude::*;

use crate::epoll::{all_wf, AttributionError};
use crate::futex::{FutexEvent, FutexProgram};
use crate::futex_stats::{all_records, futex_all_wf, futex_sample_run, Futex, FutexEntryView};
use crate::sink::records_view;
use crate::ipc::{IpcEvent, IpcProgram};
use crate::clone::CloneEvent;
use crate::epoll::{drained, entry_after_drain, EntryView};
use crate::ipc::Connection;
use crate::ipc_stats::{action_view, ActionView, names_step, pipes_step, sockets_step, KFile, actions_view, all_socket_actions, all_stream_actions, Pipes, SinkAction, SocketNames, Sockets};
use crate::lits::{is_sockfs, lit_sockfs};
use crate::pieces::{push_slash, slash};
use crate::render::{append, dec_text, render_dec};

verus! {

/// The IPC accumulators of one thread.
pub struct Ipc {
    pub tid: u64,
    pub sockets: Sockets,
    pub pipes: Pipes,
}

impl Ipc {
    pub open spec fn wf(&self) -> bool {
        all_wf(self.sockets.files()) && all_wf(self.pipes.files())
    }

    /// Accumulators for thread `tid` whose files go under `<dir>/ipc`.
    pub fn new(tid: u64, dir: &Vec<u8>) -> (r: Self)
        ensures
            r.wf(),
            r.tid == tid,
    {
        let mut d: Vec<u8> = Vec::new();
        append(&mut d, dir.as_slice());
        append(&mut d, &[47u8, 105, 112, 99]);
        Ipc { tid, sockets: Sockets::new(crate::futex::copy_bytes(&d)), pipes: Pipes::new(d) }
    }

    /// The accumulators' files and the socket names, as plain values.
    pub open spec fn state(&self, names: Seq<(KFile, Connection)>) -> ThreadIpcState {
        (self.sockets.files(), self.pipes.files(), names)
    }

    /// Applies one per-thread event: inode waits on `sockfs` and socket name events go to
    /// the sockets, other inode waits to the streams; anything else is `UnexpectedEvent`.
    pub fn process_event(&mut self, event: IpcEvent, names: &mut SocketNames, boot_epoch_ns: u64) -> (r: Result<(), AttributionError>)
        requires
            old(self).wf(),
        ensures
            final(self).wf(),
            final(self).tid == old(self).tid,
            final(self).sockets.dir() == old(self).sockets.dir(),
            final(self).pipes.dir() == old(self).pipes.dir(),
            (r, final(self).state(final(names)@)) == ipc_thread_step(old(self).state(old(names)@), event, boot_epoch_ns),
    {
        match &event {
            IpcEvent::InodeWait { fs_type, .. } => {
                if is_sockfs(fs_type.as_slice()) {
                    self.sockets.process_event(event, names, boot_epoch_ns)
                } else {
                    self.pipes.process_event(event, boot_epoch_ns)
                }
            },
            IpcEvent::AcceptEnd { .. } | IpcEvent::ConnectEnd { .. } => self.sockets.process_event(event, names, boot_epoch_ns),
            _ => Err(AttributionError::UnexpectedEvent),
        }
    }

    /// Applies the thread's events in order, stopping at the first error other than an
    /// instant that went back (such an event is skipped).
    pub fn sample(&mut self, events: Vec<IpcEvent>, names: &mut SocketNames, boot_epoch_ns: u64) -> (r: Result<(), AttributionError>)
        requires
            old(self).wf(),
        ensures
            final(self).wf(),
            final(self).tid == old(self).tid,
            final(self).sockets.dir() == old(self).sockets.dir(),
            final(self).pipes.dir() == old(self).pipes.dir(),
            (r, final(self).state(final(names)@)) == ipc_thread_run(old(self).state(old(names)@), events@, boot_epoch_ns),
    {
        let ghost all = events@;
        let mut evs = events;
        let n = evs.len();
        let mut i: usize = 0;
        while evs.len() > 0
            invariant
                n == all.len(),
                all == events@,
                0 <= i <= n,
                evs@ == all.subrange(i as int, n as int),
                evs@.len() == n - i,
                self.wf(),
                self.tid == old(self).tid,
                self.sockets.dir() == old(self).sockets.dir(),
                self.pipes.dir() == old(self).pipes.dir(),
                (Ok::<(), AttributionError>(()), self.state(names@)) == ipc_thread_run(old(self).state(old(names)@), all.subrange(0, i as int), boot_epoch_ns),
            decreases evs@.len(),
        {
            assert(i < n);
            let e = evs.remove(0);
            assert(all.subrange(0, i + 1).drop_last() =~= all.subrange(0, i as int));
            assert(all.subrange(0, i + 1).last() == e);
            let res = self.process_event(e, names, boot_epoch_ns);
            assert(ipc_thread_run(old(self).state(old(names)@), all.subrange(0, i + 1), boot_epoch_ns) == (
                if res == Err::<(), AttributionError>(AttributionError::InstantWentBack) { Ok(()) } else { res },
                self.state(names@),
            ));
            i = i + 1;
            assert(evs@ =~= all.subrange(i as int, n as int));
            match res {
                Ok(()) => {},
                Err(AttributionError::InstantWentBack) => {},
                Err(err) => {
                    proof {
                        lemma_thread_run_err(old(self).state(old(names)@), all, i as int, n as int, boot_epoch_ns, (Err::<(), AttributionError>(err), self.state(names@)));
                        assert(all.subrange(0, n as int) =~= all);
                    }
                    return Err(err);
                },
            }
        }
        assert(all.subrange(0, n as int) =~= all);
        Ok(())
    }

    /// The sink actions of the sockets, then of the streams.
    pub fn store(&mut self, names: &SocketNames) -> (r: Vec<SinkAction>)
        requires
            old(self).wf(),
        ensures
            final(self).wf(),
            final(self).tid == old(self).tid,
            final(self).sockets.dir() == old(self).sockets.dir(),
            final(self).pipes.dir() == old(self).pipes.dir(),
            final(self).sockets.files() == drain_all(old(self).sockets.files()),
            final(self).pipes.files() == drain_all(old(self).pipes.files()),
            actions_view(r@) == all_socket_actions(old(self).sockets.dir(), names@, drained(old(self).sockets.files()))
                + all_stream_actions(old(self).pipes.dir(), drained(old(self).pipes.files())),
    {
        let mut a = self.sockets.store(names);
        let mut b = self.pipes.store();
        let ghost av = actions_view(a@);
        let ghost bv = actions_view(b@);
        a.append(&mut b);
        assert(actions_view(a@) =~= av + bv);
        a
    }
}

/// The files of a thread's sockets and streams, and the socket names.
pub type ThreadIpcState = (Seq<EntryView>, Seq<EntryView>, Seq<(KFile, Connection)>);

/// How one per-thread IPC event changes the thread's accumulators and the socket names.
pub open spec fn ipc_thread_step(s: ThreadIpcState, e: IpcEvent, boot_epoch_ns: u64) -> (Result<(), AttributionError>, ThreadIpcState) {
    match e {
        IpcEvent::InodeWait { fs_type, .. } => if fs_type@ == lit_sockfs() {
            match sockets_step(s.0, e, boot_epoch_ns) {
                Some((r, es)) => (r, (es, s.1, s.2)),
                None => (Err(AttributionError::UnexpectedEvent), s),
            }
        } else {
            match pipes_step(s.1, e, boot_epoch_ns) {
                Some((r, es)) => (r, (s.0, es, s.2)),
                None => (Err(AttributionError::UnexpectedEvent), s),
            }
        },
        IpcEvent::AcceptEnd { .. } | IpcEvent::ConnectEnd { .. } => (Ok(()), (s.0, s.1, names_step(s.2, e))),
        _ => (Err(AttributionError::UnexpectedEvent), s),
    }
}

/// The events applied in order, stopping at the first error. An event whose instant is not
/// later than the file's newest snapshot is skipped (the snapshot order must hold), and the
/// rest are still applied.
pub open spec fn ipc_thread_run(s: ThreadIpcState, evs: Seq<IpcEvent>, boot_epoch_ns: u64) -> (Result<(), AttributionError>, ThreadIpcState)
    decreases evs.len(),
{
    if evs.len() == 0 {
        (Ok(()), s)
    } else {
        let (r, s1) = ipc_thread_run(s, evs.drop_last(), boot_epoch_ns);
        if r is Ok {
            let (r2, s2) = ipc_thread_step(s1, evs.last(), boot_epoch_ns);
            if r2 == Err::<(), AttributionError>(AttributionError::InstantWentBack) {
                (Ok(()), s2)
            } else {
                (r2, s2)
            }
        } else {
            (r, s1)
        }
    }
}

/// Every entry with its fixed snapshots taken.
pub open spec fn drain_all(es: Seq<EntryView>) -> Seq<EntryView> {
    Seq::new(es.len(), |i: int| entry_after_drain(es[i]))
}

proof fn lemma_thread_run_err(s: ThreadIpcState, evs: Seq<IpcEvent>, k: int, n: int, boot_epoch_ns: u64, out: (Result<(), AttributionError>, ThreadIpcState))
    requires
        0 <= k <= n <= evs.len(),
        out.0 is Err,
        ipc_thread_run(s, evs.subrange(0, k), boot_epoch_ns) == out,
    ensures
        ipc_thread_run(s, evs.subrange(0, n), boot_epoch_ns) == out,
    decreases n - k,
{
    if k < n {
        lemma_thread_run_err(s, evs, k, n - 1, boot_epoch_ns, out);
        assert(evs.subrange(0, n).drop_last() =~= evs.subrange(0, n - 1));
    }
}

/// The sink actions of futex records.
pub open spec fn appends(recs: Seq<(Seq<u8>, Seq<u8>, Seq<u8>)>) -> Seq<ActionView> {
    Seq::new(recs.len(), |i: int| ActionView::Append(recs[i].0, recs[i].1, recs[i].2))
}

/// The sink actions a sample of target `t` returns, given the futex and IPC programs'
/// events and the socket names before it: the futex rows of the thread's words, then the
/// rows of its sockets and streams after its IPC events.
pub open spec fn target_actions(t: Target, futex_events: Seq<FutexEvent>, ipc_events: Seq<IpcEvent>, names: Seq<(KFile, Connection)>, boot_epoch_ns: u64) -> Seq<ActionView> {
    let run = ipc_thread_run(t.ipc.state(names), ipc_events.filter(crate::ipc::of_ipc_thread(t.tid)), boot_epoch_ns);
    appends(all_records(t.futex.dir(), boot_epoch_ns, futex_sample_run(t.futex@, futex_events.filter(crate::futex::of_thread(t.tid)))))
        + all_socket_actions(t.ipc.sockets.dir(), run.1.2, drained(run.1.0))
        + all_stream_actions(t.ipc.pipes.dir(), drained(run.1.1))
}

/// The accumulators of one monitored thread.
pub struct Target {
    pub tid: u64,
    pub pid: u64,
    pub futex: Futex,
    pub ipc: Ipc,
}

/// `thread/<pid>/<tid>`.
pub open spec fn target_subdirectory(pid: u64, tid: u64) -> Seq<u8> {
    seq![116u8, 104, 114, 101, 97, 100] + slash() + dec_text(pid as nat) + slash() + dec_text(tid as nat)
}

impl Target {
    pub open spec fn wf(&self) -> bool {
        futex_all_wf(self.futex@) && self.ipc.wf() && self.futex.tid_spec() == self.tid && self.ipc.tid == self.tid
    }

    /// Accumulators for thread `tid` of process `pid`, under `<root>/thread/<pid>/<tid>`.
    pub fn new(tid: u64, pid: u64, root_directory: &[u8]) -> (r: Self)
        ensures
            r.wf(),
            r.tid == tid,
            r.pid == pid,
            r.futex@.len() == 0,
            r.futex.dir() == root_directory@ + slash() + target_subdirectory(pid, tid) + slash() + seq![102u8, 117, 116, 101, 120],
    {
        let mut sub: Vec<u8> = Vec::new();
        append(&mut sub, &[116u8, 104, 114, 101, 97, 100]);
        push_slash(&mut sub);
        append(&mut sub, render_dec(pid as u128).as_slice());
        push_slash(&mut sub);
        append(&mut sub, render_dec(tid as u128).as_slice());
        assert(sub@ =~= target_subdirectory(pid, tid));
        let futex = Futex::new(tid, root_directory, sub.as_slice());
        let mut dir: Vec<u8> = Vec::new();
        append(&mut dir, root_directory);
        push_slash(&mut dir);
        append(&mut dir, sub.as_slice());
        let ipc = Ipc::new(tid, &dir);
        Target { tid, pid, futex, ipc }
    }

    /// Takes the thread's derived events from the futex and IPC programs, folds them into
    /// the accumulators, and returns every snapshot as sink actions (futex rows first).
    /// An IPC event the accumulators refuse ends the sample with that error.
    pub fn sample(&mut self, futex_program: &mut FutexProgram, ipc_program: &mut IpcProgram, names: &mut SocketNames, boot_epoch_ns: u64) -> (r: Result<Vec<SinkAction>, AttributionError>)
        requires
            old(self).wf(),
        ensures
            final(self).wf(),
            final(self).tid == old(self).tid,
            final(self).pid == old(self).pid,
            final(futex_program)@.events == old(futex_program)@.events.filter(crate::futex::not_of_thread(old(self).tid)),
            final(ipc_program)@.events == old(ipc_program)@.events.filter(crate::ipc::not_of_ipc_thread(old(self).tid)),
            ({
                let sampled = futex_sample_run(old(self).futex@, old(futex_program)@.events.filter(crate::futex::of_thread(old(self).tid)));
                final(self).futex@ == Seq::new(sampled.len(), |i: int| FutexEntryView { snapshots: Seq::empty(), ..sampled[i] })
            }),
            final(self).futex.dir() == old(self).futex.dir(),
            final(self).ipc.sockets.dir() == old(self).ipc.sockets.dir(),
            final(self).ipc.pipes.dir() == old(self).ipc.pipes.dir(),
            r is Ok <==> ipc_thread_run(
                old(self).ipc.state(old(names)@),
                old(ipc_program)@.events.filter(crate::ipc::of_ipc_thread(old(self).tid)),
                boot_epoch_ns,
            ).0 is Ok,
            r is Ok ==> ({
                let run = ipc_thread_run(
                    old(self).ipc.state(old(names)@),
                    old(ipc_program)@.events.filter(crate::ipc::of_ipc_thread(old(self).tid)),
                    boot_epoch_ns,
                );
                &&& final(self).ipc.state(final(names)@) == (drain_all(run.1.0), drain_all(run.1.1), run.1.2)
                &&& actions_view(r->Ok_0@) == target_actions(*old(self), old(futex_program)@.events, old(ipc_program)@.events, old(names)@, boot_epoch_ns)
            }),
            r is Err ==> ipc_thread_run(
                old(self).ipc.state(old(names)@),
                old(ipc_program)@.events.filter(crate::ipc::of_ipc_thread(old(self).tid)),
                boot_epoch_ns,
            ) == (Err::<(), AttributionError>(r->Err_0), final(self).ipc.state(final(names)@)),
    {
        let fevents = futex_program.take_futex_events(self.tid);
        self.futex.sample(fevents);
        let records = self.futex.store(boot_epoch_ns);
        let ghost rv = records_view(records@);
        let mut out: Vec<SinkAction> = Vec::new();
        let mut records = records;
        let ghost all = records@;
        let n = records.len();
        let mut i: usize = 0;
        while records.len() > 0
            invariant
                n == all.len(),
                rv == records_view(all),
                0 <= i <= n,
                records@ == all.subrange(i as int, n as int),
                records@.len() == n - i,
                actions_view(out@) == appends(rv).subrange(0, i as int),
            decreases records@.len(),
        {
            assert(i < n);
            let rec = records.remove(0);
            let ghost prev = actions_view(out@);
            let a = SinkAction::Append(rec);
            assert(action_view(a) == appends(rv)[i as int]);
            out.push(a);
            assert(actions_view(out@) =~= prev.push(action_view(a)));
            i = i + 1;
            assert(appends(rv).subrange(0, i as int) =~= appends(rv).subrange(0, i - 1).push(appends(rv)[i - 1]));
            assert(records@ =~= all.subrange(i as int, n as int));
        }
        assert(appends(rv).subrange(0, n as int) =~= appends(rv));
        let ievents = ipc_program.take_tid_events(self.tid);
        match self.ipc.sample(ievents, names, boot_epoch_ns) {
            Ok(()) => {},
            Err(e) => return Err(e),
        }
        let ghost before = actions_view(out@);
        let mut more = self.ipc.store(names);
        let ghost mv = actions_view(more@);
        out.append(&mut more);
        assert(actions_view(out@) =~= before + mv);
        Ok(out)
    }
}

/// The registered threads as (tid, pid) pairs.
pub open spec fn reg_view(v: Seq<Target>) -> Seq<(u64, u64)> {
    v.map_values(|t: Target| (t.tid, t.pid))
}

pub open spec fn has_tid(v: Seq<(u64, u64)>, tid: u64) -> bool {
    exists|i: int| 0 <= i < v.len() && (#[trigger] v[i]).0 == tid
}

/// No thread is registered twice.
pub open spec fn tids_unique(v: Seq<(u64, u64)>) -> bool {
    forall|i: int, j: int| 0 <= i < j < v.len() ==> (#[trigger] v[i]).0 != (#[trigger] v[j]).0
}

/// Entries of other threads than `tid`.
pub open spec fn not_tid(tid: u64) -> spec_fn((u64, u64)) -> bool {
    |p: (u64, u64)| p.0 != tid
}

/// Entries of other processes than `pid`.
pub open spec fn not_pid(pid: u64) -> spec_fn((u64, u64)) -> bool {
    |p: (u64, u64)| p.1 != pid
}

/// The registry after `NewProcess`: each thread of `tids`, in order, replaces any entry of
/// its own and is added at the end.
pub open spec fn register_all(v: Seq<(u64, u64)>, pid: u64, tids: Seq<u64>) -> Seq<(u64, u64)>
    decreases tids.len(),
{
    if tids.len() == 0 {
        v
    } else {
        register_all(v, pid, tids.drop_last()).filter(not_tid(tids.last())).push((tids.last(), pid))
    }
}

/// The monitored threads, each with its accumulators.
pub struct Registry {
    targets: Vec<Target>,
    root_directory: Vec<u8>,
}

impl View for Registry {
    type V = Seq<(u64, u64)>;

    closed spec fn view(&self) -> Seq<(u64, u64)> {
        reg_view(self.targets@)
    }
}

impl Registry {
    pub closed spec fn wf(&self) -> bool {
        tids_unique(self@) && forall|i: int| 0 <= i < self.targets@.len() ==> (#[trigger] self.targets@[i]).wf()
    }

    /// No thread yet; data files go under `root_directory`.
    pub fn new(root_directory: Vec<u8>) -> (r: Self)
        ensures
            r@ == Seq::<(u64, u64)>::empty(),
            r.wf(),
            tids_unique(r@),
    {
        let r = Registry { targets: Vec::new(), root_directory };
        assert(r@ =~= Seq::<(u64, u64)>::empty());
        r
    }

    /// Whether thread `tid` is registered.
    pub fn contains(&self, tid: u64) -> (r: bool)
        ensures
            r == has_tid(self@, tid),
    {
        let mut i: usize = 0;
        while i < self.targets.len()
            invariant
                0 <= i <= self.targets@.len(),
                forall|k: int| 0 <= k < i ==> (#[trigger] self@[k]).0 != tid,
            decreases self.targets@.len() - i,
        {
            assert(self@[i as int] == (self.targets@[i as int].tid, self.targets@[i as int].pid));
            if self.targets[i].tid == tid {
                return true;
            }
            i = i + 1;
        }
        false
    }

    /// `NewThread`: registers thread `tid` of process `pid` unless it is already there;
    /// returns whether it was added.
    pub fn register_thread(&mut self, tid: u64, pid: u64) -> (r: bool)
        requires
            old(self).wf(),
        ensures
            final(self).wf(),
            tids_unique(final(self)@),
            r == !has_tid(old(self)@, tid),
            r ==> final(self)@ == old(self)@.push((tid, pid)),
            !r ==> final(self)@ == old(self)@,
    {
        if self.contains(tid) {
            return false;
        }
        let t = Target::new(tid, pid, self.root_directory.as_slice());
        let ghost before = self@;
        self.targets.push(t);
        assert(self@ =~= before.push((tid, pid)));
        assert forall|i: int, j: int| 0 <= i < j < self@.len() implies (#[trigger] self@[i]).0 != (#[trigger] self@[j]).0 by {
            if j == before.len() {
                assert(self@[i] == before[i]);
            }
        }
        true
    }

    /// `NewProcess`: registers the threads `tids` of process `pid`, each with fresh
    /// accumulators (replacing a thread already registered).
    pub fn register_process(&mut self, pid: u64, tids: &Vec<u64>)
        requires
            old(self).wf(),
        ensures
            final(self).wf(),
            tids_unique(final(self)@),
            final(self)@ == register_all(old(self)@, pid, tids@),
            forall|k: int| 0 <= k < tids@.len() ==> has_tid(final(self)@, #[trigger] tids@[k]),
            forall|t: u64| has_tid(old(self)@, t) ==> has_tid(final(self)@, t),
    {
        let mut k: usize = 0;
        assert(tids@.subrange(0, 0) =~= Seq::<u64>::empty());
        while k < tids.len()
            invariant
                0 <= k <= tids@.len(),
                self.wf(),
                self@ == register_all(old(self)@, pid, tids@.subrange(0, k as int)),
                forall|j: int| 0 <= j < k ==> has_tid(self@, #[trigger] tids@[j]),
                forall|t: u64| has_tid(old(self)@, t) ==> has_tid(self@, t),
            decreases tids@.len() - k,
        {
            let tid = tids[k];
            let ghost before = self@;
            self.remove_thread(tid);
            let ghost mid = self@;
            let added = self.register_thread(tid, pid);
            proof {
                lemma_filter_tid_keeps(before, tid);
                assert(!has_tid(mid, tid));
                assert(self@ == mid.push((tid, pid)));
                assert(self@[mid.len() as int].0 == tid);
                assert(tids@.subrange(0, k + 1).drop_last() =~= tids@.subrange(0, k as int));
                assert(tids@.subrange(0, k + 1).last() == tid);
                assert forall|j: int| 0 <= j <= k implies has_tid(self@, #[trigger] tids@[j]) by {
                    if tids@[j] != tid {
                        let t = tids@[j];
                        lemma_has_tid_filter(before, tid, t);
                        lemma_has_tid_push(mid, (tid, pid), t);
                    }
                }
                assert forall|t: u64| has_tid(old(self)@, t) implies has_tid(self@, t) by {
                    if t != tid {
                        lemma_has_tid_filter(before, tid, t);
                        lemma_has_tid_push(mid, (tid, pid), t);
                    }
                }
            }
            k = k + 1;
        }
        assert(tids@.subrange(0, k as int) =~= tids@);
    }

    /// The registered threads, in order of registration.
    pub fn tids(&self) -> (r: Vec<u64>)
        ensures
            r@ == self@.map_values(|p: (u64, u64)| p.0),
    {
        let mut out: Vec<u64> = Vec::new();
        let mut i: usize = 0;
        while i < self.targets.len()
            invariant
                0 <= i <= self.targets@.len(),
                out@ == self@.subrange(0, i as int).map_values(|p: (u64, u64)| p.0),
            decreases self.targets@.len() - i,
        {
            out.push(self.targets[i].tid);
            i = i + 1;
            assert(out@ =~= self@.subrange(0, i as int).map_values(|p: (u64, u64)| p.0));
        }
        assert(self@.subrange(0, i as int) =~= self@);
        out
    }

    /// The `i`-th target, in order of registration.
    pub closed spec fn target_at(&self, i: int) -> Target {
        self.targets@[i]
    }

    /// Samples every target in order of registration, collecting the sink actions of those
    /// whose sample succeeded, and drops each target whose sample failed; returns the
    /// actions and the dropped threads, in order of registration.
    pub fn sample_targets(&mut self, futex_program: &mut FutexProgram, ipc_program: &mut IpcProgram, names: &mut SocketNames, boot_epoch_ns: u64) -> (r: (Vec<SinkAction>, Vec<u64>))
        requires
            old(self).wf(),
        ensures
            final(self).wf(),
            tids_unique(final(self)@),
            final(self)@ == old(self)@.filter(not_in(r.1@)),
            exists|fe: Seq<Seq<FutexEvent>>, ie: Seq<Seq<IpcEvent>>, ns: Seq<Seq<(KFile, Connection)>>|
                #[trigger] sample_outcome(*old(self), fe, ie, ns, boot_epoch_ns, old(futex_program)@.events, old(ipc_program)@.events,
                    old(names)@, final(futex_program)@.events, final(ipc_program)@.events, final(names)@, actions_view(r.0@), r.1@),
    {
        let ghost reg0 = *self;
        let ghost n = self@.len() as int;
        let ghost mut fe: Seq<Seq<FutexEvent>> = seq![futex_program@.events];
        let ghost mut ie: Seq<Seq<IpcEvent>> = seq![ipc_program@.events];
        let ghost mut ns: Seq<Seq<(KFile, Connection)>> = seq![names@];
        let mut actions: Vec<SinkAction> = Vec::new();
        let mut failed: Vec<u64> = Vec::new();
        let mut i: usize = 0;
        assert(actions_view(actions@) =~= Seq::<ActionView>::empty());
        while i < self.targets.len()
            invariant
                0 <= i <= self.targets@.len(),
                self.targets@.len() == n,
                n == reg0@.len(),
                reg0 == *old(self),
                self.wf(),
                self@ == reg0@,
                forall|k: int| i <= k < n ==> self.targets@[k] == reg0.target_at(k),
                fe.len() == i + 1 && ie.len() == i + 1 && ns.len() == i + 1,
                fe[0] == old(futex_program)@.events,
                ie[0] == old(ipc_program)@.events,
                ns[0] == old(names)@,
                fe[i as int] == futex_program@.events,
                ie[i as int] == ipc_program@.events,
                ns[i as int] == names@,
                chain_ok(reg0, fe, ie, ns, boot_epoch_ns, i as int),
                failed@ == failed_tids(reg0, ie, ns, boot_epoch_ns, i as int),
                actions_view(actions@) == ok_actions(reg0, fe, ie, ns, boot_epoch_ns, i as int),
            decreases self.targets@.len() - i,
        {
            let ghost before = self.targets@;
            let ghost bv = self@;
            let mut t = self.targets.remove(i);
            assert(t == reg0.target_at(i as int));
            let ghost f0 = futex_program@.events;
            let ghost i0 = ipc_program@.events;
            let ghost n0 = names@;
            let res = t.sample(futex_program, ipc_program, names, boot_epoch_ns);
            let tid = t.tid;
            self.targets.insert(i, t);
            assert(self@ =~= bv);
            assert forall|k: int| 0 <= k < self.targets@.len() implies (#[trigger] self.targets@[k]).wf() by {
                if k != i {
                    assert(self.targets@[k] == before[k]);
                }
            }
            proof {
                let fe2 = fe.push(futex_program@.events);
                let ie2 = ie.push(ipc_program@.events);
                let ns2 = ns.push(names@);
                lemma_chain_extend(reg0, fe, ie, ns, boot_epoch_ns, i as int, futex_program@.events, ipc_program@.events, names@);
                lemma_prefix_stable(reg0, fe, ie, ns, fe2, ie2, ns2, boot_epoch_ns, i as int);
                fe = fe2;
                ie = ie2;
                ns = ns2;
            }
            let ghost prev_actions = actions_view(actions@);
            let ghost prev_failed = failed@;
            match res {
                Ok(mut acts) => {
                    let ghost av = actions_view(acts@);
                    actions.append(&mut acts);
                    assert(actions_view(actions@) =~= prev_actions + av);
                },
                Err(_) => {
                    failed.push(tid);
                    assert(actions_view(actions@) =~= prev_actions + Seq::<ActionView>::empty());
                },
            }
            i = i + 1;
        }
        self.retain_not_in(&failed);
        assert(sample_outcome(reg0, fe, ie, ns, boot_epoch_ns, old(futex_program)@.events, old(ipc_program)@.events,
            old(names)@, futex_program@.events, ipc_program@.events, names@, actions_view(actions@), failed@));
        let r = (actions, failed);
        assert(sample_outcome(*old(self), fe, ie, ns, boot_epoch_ns, old(futex_program)@.events, old(ipc_program)@.events,
            old(names)@, futex_program@.events, ipc_program@.events, names@, actions_view(r.0@), r.1@));
        r
    }

    /// Drops every thread listed in `tids`.
    fn retain_not_in(&mut self, tids: &Vec<u64>)
        requires
            old(self).wf(),
        ensures
            final(self).wf(),
            final(self)@ == old(self)@.filter(not_in(tids@)),
    {
        let ghost pred = not_in(tids@);
        let mut all: Vec<Target> = Vec::new();
        std::mem::swap(&mut all, &mut self.targets);
        let ghost orig = all@;
        let ghost ov = reg_view(orig);
        let n = all.len();
        let mut i: usize = 0;
        proof {
            reveal(Seq::filter);
        }
        assert(ov.subrange(0, 0) =~= Seq::<(u64, u64)>::empty());
        assert(reg_view(self.targets@) =~= Seq::<(u64, u64)>::empty());
        while all.len() > 0
            invariant
                n == orig.len(),
                ov == reg_view(orig),
                tids_unique(ov),
                forall|k: int| 0 <= k < orig.len() ==> (#[trigger] orig[k]).wf(),
                0 <= i <= n,
                all@ == orig.subrange(i as int, n as int),
                all@.len() == n - i,
                reg_view(self.targets@) == ov.subrange(0, i as int).filter(pred),
                forall|k: int| 0 <= k < self.targets@.len() ==> (#[trigger] self.targets@[k]).wf(),
                pred == not_in(tids@),
                ov == old(self)@,
            decreases all@.len(),
        {
            assert(i < n);
            let t = all.remove(0);
            assert(t == orig[i as int]);
            let keep = !vec_contains(tids, t.tid);
            assert(pred((t.tid, t.pid)) == keep);
            let ghost pre = ov.subrange(0, i as int);
            assert(ov.subrange(0, i + 1) =~= pre.push((t.tid, t.pid)));
            proof {
                pre.lemma_filter_push((t.tid, t.pid), pred);
            }
            if keep {
                let ghost bv = reg_view(self.targets@);
                self.targets.push(t);
                assert(reg_view(self.targets@) =~= bv.push((t.tid, t.pid)));
            }
            i = i + 1;
            assert(all@ =~= orig.subrange(i as int, n as int));
        }
        assert(ov.subrange(0, n as int) =~= ov);
        proof {
            lemma_filter_unique(ov, pred);
        }
    }

    /// Applies a clone event: `NewThread` registers the thread unless it is there,
    /// `NewProcess` registers `threads` (the process's threads as listed by the caller) and
    /// returns the process to announce to the tracers, `RemoveProcess` drops the process's
    /// threads; an unexpected event changes nothing.
    pub fn handle_clone_event(&mut self, event: CloneEvent, threads: &Vec<u64>) -> (r: Option<u64>)
        requires
            old(self).wf(),
        ensures
            final(self).wf(),
            tids_unique(final(self)@),
            match event {
                CloneEvent::NewThread { pid, tid, .. } => r is None && (has_tid(old(self)@, tid) ==> final(self)@ == old(self)@)
                    && (!has_tid(old(self)@, tid) ==> final(self)@ == old(self)@.push((tid, pid))),
                CloneEvent::NewProcess(_, pid) => r == Some(pid) && final(self)@ == register_all(old(self)@, pid, threads@),
                CloneEvent::RemoveProcess(pid) => r is None && final(self)@ == old(self)@.filter(not_pid(pid)),
                CloneEvent::Unexpected { .. } => r is None && final(self)@ == old(self)@,
            },
    {
        match event {
            CloneEvent::NewThread { pid, tid, .. } => {
                self.register_thread(tid, pid);
                None
            },
            CloneEvent::NewProcess(_, pid) => {
                self.register_process(pid, threads);
                Some(pid)
            },
            CloneEvent::RemoveProcess(pid) => {
                self.remove_process(pid);
                None
            },
            CloneEvent::Unexpected { .. } => None,
        }
    }

    /// Drops thread `tid`, if registered.
    pub fn remove_thread(&mut self, tid: u64)
        requires
            old(self).wf(),
        ensures
            final(self).wf(),
            tids_unique(final(self)@),
            final(self)@ == old(self)@.filter(not_tid(tid)),
    {
        self.retain(tid, true);
    }

    /// `RemoveProcess`: drops every thread of process `pid`.
    pub fn remove_process(&mut self, pid: u64)
        requires
            old(self).wf(),
        ensures
            final(self).wf(),
            tids_unique(final(self)@),
            final(self)@ == old(self)@.filter(not_pid(pid)),
    {
        self.retain(pid, false);
    }

    fn retain(&mut self, key: u64, by_tid: bool)
        requires
            old(self).wf(),
        ensures
            final(self).wf(),
            by_tid ==> final(self)@ == old(self)@.filter(not_tid(key)),
            !by_tid ==> final(self)@ == old(self)@.filter(not_pid(key)),
    {
        let ghost pred = if by_tid { not_tid(key) } else { not_pid(key) };
        let mut all: Vec<Target> = Vec::new();
        std::mem::swap(&mut all, &mut self.targets);
        let ghost orig = all@;
        let ghost ov = reg_view(orig);
        let n = all.len();
        let mut i: usize = 0;
        proof {
            reveal(Seq::filter);
        }
        assert(ov.subrange(0, 0) =~= Seq::<(u64, u64)>::empty());
        assert(reg_view(self.targets@) =~= Seq::<(u64, u64)>::empty());
        while all.len() > 0
            invariant
                n == orig.len(),
                ov == reg_view(orig),
                tids_unique(ov),
                forall|k: int| 0 <= k < orig.len() ==> (#[trigger] orig[k]).wf(),
                0 <= i <= n,
                all@ == orig.subrange(i as int, n as int),
                all@.len() == n - i,
                reg_view(self.targets@) == ov.subrange(0, i as int).filter(pred),
                forall|k: int| 0 <= k < self.targets@.len() ==> (#[trigger] self.targets@[k]).wf(),
                pred == (if by_tid { not_tid(key) } else { not_pid(key) }),
                ov == old(self)@,
            decreases all@.len(),
        {
            assert(i < n);
            let t = all.remove(0);
            assert(t == orig[i as int]);
            let keep = if by_tid { t.tid != key } else { t.pid != key };
            assert(pred((t.tid, t.pid)) == keep);
            let ghost pre = ov.subrange(0, i as int);
            assert(ov.subrange(0, i + 1) =~= pre.push((t.tid, t.pid)));
            proof {
                pre.lemma_filter_push((t.tid, t.pid), pred);
            }
            if keep {
                let ghost bv = reg_view(self.targets@);
                self.targets.push(t);
                assert(reg_view(self.targets@) =~= bv.push((t.tid, t.pid)));
            }
            i = i + 1;
            assert(all@ =~= orig.subrange(i as int, n as int));
        }
        assert(ov.subrange(0, n as int) =~= ov);
        proof {
            lemma_filter_unique(ov, pred);
        }
    }
}

/// Entries whose thread is not in `tids`.
pub open spec fn not_in(tids: Seq<u64>) -> spec_fn((u64, u64)) -> bool {
    |p: (u64, u64)| !tids.contains(p.0)
}

/// Whether `v` holds `x`.
fn vec_contains(v: &Vec<u64>, x: u64) -> (r: bool)
    ensures
        r == v@.contains(x),
{
    let mut i: usize = 0;
    while i < v.len()
        invariant
            0 <= i <= v@.len(),
            forall|k: int| 0 <= k < i ==> v@[k] != x,
        decreases v@.len() - i,
    {
        if v[i] == x {
            assert(v@[i as int] == x);
            return true;
        }
        i = i + 1;
    }
    false
}

/// The IPC outcome of sampling target `i` given the programs' events and the names before it.
pub open spec fn target_run(reg: Registry, ie: Seq<Seq<IpcEvent>>, ns: Seq<Seq<(KFile, Connection)>>, boot_epoch_ns: u64, i: int) -> (Result<(), AttributionError>, ThreadIpcState) {
    let t = reg.target_at(i);
    ipc_thread_run(t.ipc.state(ns[i]), ie[i].filter(crate::ipc::of_ipc_thread(t.tid)), boot_epoch_ns)
}

/// Sampling the first `k` targets of `reg` took the programs' events and the socket names
/// through `fe`, `ie` and `ns`: each target takes its own events and leaves the names as
/// its IPC events do.
pub open spec fn chain_ok(reg: Registry, fe: Seq<Seq<FutexEvent>>, ie: Seq<Seq<IpcEvent>>, ns: Seq<Seq<(KFile, Connection)>>, boot_epoch_ns: u64, k: int) -> bool {
    forall|i: int| 0 <= i < k ==> {
        &&& #[trigger] fe[i + 1] == fe[i].filter(crate::futex::not_of_thread(reg.target_at(i).tid))
        &&& ie[i + 1] == ie[i].filter(crate::ipc::not_of_ipc_thread(reg.target_at(i).tid))
        &&& ns[i + 1] == target_run(reg, ie, ns, boot_epoch_ns, i).1.2
    }
}

/// The threads among the first `k` targets whose sample failed, in order.
pub open spec fn failed_tids(reg: Registry, ie: Seq<Seq<IpcEvent>>, ns: Seq<Seq<(KFile, Connection)>>, boot_epoch_ns: u64, k: int) -> Seq<u64>
    decreases k,
{
    if k <= 0 {
        Seq::empty()
    } else if target_run(reg, ie, ns, boot_epoch_ns, k - 1).0 is Err {
        failed_tids(reg, ie, ns, boot_epoch_ns, k - 1).push(reg.target_at(k - 1).tid)
    } else {
        failed_tids(reg, ie, ns, boot_epoch_ns, k - 1)
    }
}

/// The sink actions of the first `k` targets whose sample succeeded, in order.
pub open spec fn ok_actions(reg: Registry, fe: Seq<Seq<FutexEvent>>, ie: Seq<Seq<IpcEvent>>, ns: Seq<Seq<(KFile, Connection)>>, boot_epoch_ns: u64, k: int) -> Seq<ActionView>
    decreases k,
{
    if k <= 0 {
        Seq::empty()
    } else if target_run(reg, ie, ns, boot_epoch_ns, k - 1).0 is Err {
        ok_actions(reg, fe, ie, ns, boot_epoch_ns, k - 1)
    } else {
        ok_actions(reg, fe, ie, ns, boot_epoch_ns, k - 1) + target_actions(reg.target_at(k - 1), fe[k - 1], ie[k - 1], ns[k - 1], boot_epoch_ns)
    }
}

/// What `sample_targets` did: the targets were sampled in order through the chains `fe`,
/// `ie`, `ns` from the state before to the state after; the failed threads and the actions
/// of the others are as the chains give them.
pub open spec fn sample_outcome(
    reg: Registry,
    fe: Seq<Seq<FutexEvent>>,
    ie: Seq<Seq<IpcEvent>>,
    ns: Seq<Seq<(KFile, Connection)>>,
    boot_epoch_ns: u64,
    fe0: Seq<FutexEvent>,
    ie0: Seq<IpcEvent>,
    ns0: Seq<(KFile, Connection)>,
    fe1: Seq<FutexEvent>,
    ie1: Seq<IpcEvent>,
    ns1: Seq<(KFile, Connection)>,
    actions: Seq<ActionView>,
    failed: Seq<u64>,
) -> bool {
    let n = reg@.len() as int;
    &&& fe.len() == n + 1 && ie.len() == n + 1 && ns.len() == n + 1
    &&& fe[0] == fe0 && ie[0] == ie0 && ns[0] == ns0
    &&& fe[n] == fe1 && ie[n] == ie1 && ns[n] == ns1
    &&& chain_ok(reg, fe, ie, ns, boot_epoch_ns, n)
    &&& failed == failed_tids(reg, ie, ns, boot_epoch_ns, n)
    &&& actions == ok_actions(reg, fe, ie, ns, boot_epoch_ns, n)
}

proof fn lemma_chain_extend(reg: Registry, fe: Seq<Seq<FutexEvent>>, ie: Seq<Seq<IpcEvent>>, ns: Seq<Seq<(KFile, Connection)>>, boot_epoch_ns: u64, i: int, f1: Seq<FutexEvent>, i1: Seq<IpcEvent>, n1: Seq<(KFile, Connection)>)
    requires
        0 <= i,
        fe.len() == i + 1 && ie.len() == i + 1 && ns.len() == i + 1,
        chain_ok(reg, fe, ie, ns, boot_epoch_ns, i),
        f1 == fe[i].filter(crate::futex::not_of_thread(reg.target_at(i).tid)),
        i1 == ie[i].filter(crate::ipc::not_of_ipc_thread(reg.target_at(i).tid)),
        n1 == target_run(reg, ie, ns, boot_epoch_ns, i).1.2,
    ensures
        chain_ok(reg, fe.push(f1), ie.push(i1), ns.push(n1), boot_epoch_ns, i + 1),
{
    let fe2 = fe.push(f1);
    let ie2 = ie.push(i1);
    let ns2 = ns.push(n1);
    assert forall|j: int| 0 <= j < i + 1 implies {
        &&& #[trigger] fe2[j + 1] == fe2[j].filter(crate::futex::not_of_thread(reg.target_at(j).tid))
        &&& ie2[j + 1] == ie2[j].filter(crate::ipc::not_of_ipc_thread(reg.target_at(j).tid))
        &&& ns2[j + 1] == target_run(reg, ie2, ns2, boot_epoch_ns, j).1.2
    } by {
        assert(ie2[j] == ie[j] && ns2[j] == ns[j]);
        assert(target_run(reg, ie2, ns2, boot_epoch_ns, j) == target_run(reg, ie, ns, boot_epoch_ns, j));
        if j < i {
            assert(fe[j + 1] == fe[j].filter(crate::futex::not_of_thread(reg.target_at(j).tid)));
        }
    }
}

proof fn lemma_prefix_stable(reg: Registry, fe: Seq<Seq<FutexEvent>>, ie: Seq<Seq<IpcEvent>>, ns: Seq<Seq<(KFile, Connection)>>,
    fe2: Seq<Seq<FutexEvent>>, ie2: Seq<Seq<IpcEvent>>, ns2: Seq<Seq<(KFile, Connection)>>, boot_epoch_ns: u64, k: int)
    requires
        0 <= k,
        fe.len() == k + 1 && ie.len() == k + 1 && ns.len() == k + 1,
        fe2.len() >= k + 1 && ie2.len() >= k + 1 && ns2.len() >= k + 1,
        forall|j: int| 0 <= j <= k ==> fe2[j] == fe[j] && ie2[j] == ie[j] && ns2[j] == ns[j],
    ensures
        failed_tids(reg, ie2, ns2, boot_epoch_ns, k) == failed_tids(reg, ie, ns, boot_epoch_ns, k),
        ok_actions(reg, fe2, ie2, ns2, boot_epoch_ns, k) == ok_actions(reg, fe, ie, ns, boot_epoch_ns, k),
        failed_tids(reg, ie2, ns2, boot_epoch_ns, k + 1) == failed_tids(reg, ie, ns, boot_epoch_ns, k) + (
            if target_run(reg, ie, ns, boot_epoch_ns, k).0 is Err { seq![reg.target_at(k).tid] } else { Seq::empty() }),
        ok_actions(reg, fe2, ie2, ns2, boot_epoch_ns, k + 1) == ok_actions(reg, fe, ie, ns, boot_epoch_ns, k) + (
            if target_run(reg, ie, ns, boot_epoch_ns, k).0 is Err { Seq::empty() } else { target_actions(reg.target_at(k), fe[k], ie[k], ns[k], boot_epoch_ns) }),
    decreases k,
{
    if k > 0 {
        lemma_prefix_stable(reg, fe.drop_last(), ie.drop_last(), ns.drop_last(), fe2, ie2, ns2, boot_epoch_ns, k - 1);
        lemma_prefix_stable(reg, fe.drop_last(), ie.drop_last(), ns.drop_last(), fe, ie, ns, boot_epoch_ns, k - 1);
    }
    assert(target_run(reg, ie2, ns2, boot_epoch_ns, k) == target_run(reg, ie, ns, boot_epoch_ns, k));
    assert(failed_tids(reg, ie, ns, boot_epoch_ns, k).push(reg.target_at(k).tid) =~= failed_tids(reg, ie, ns, boot_epoch_ns, k) + seq![reg.target_at(k).tid]);
    assert(failed_tids(reg, ie, ns, boot_epoch_ns, k) + Seq::<u64>::empty() =~= failed_tids(reg, ie, ns, boot_epoch_ns, k));
    assert(ok_actions(reg, fe, ie, ns, boot_epoch_ns, k) + Seq::<ActionView>::empty() =~= ok_actions(reg, fe, ie, ns, boot_epoch_ns, k));
}

proof fn lemma_filter_tid_keeps(v: Seq<(u64, u64)>, tid: u64)
    ensures
        !has_tid(v.filter(not_tid(tid)), tid),
{
    let f = v.filter(not_tid(tid));
    if has_tid(f, tid) {
        let i = choose|i: int| 0 <= i < f.len() && (#[trigger] f[i]).0 == tid;
        v.lemma_filter_pred(not_tid(tid), i);
    }
}

proof fn lemma_has_tid_filter(v: Seq<(u64, u64)>, tid: u64, t: u64)
    requires
        t != tid,
        has_tid(v, t),
    ensures
        has_tid(v.filter(not_tid(tid)), t),
{
    let i = choose|i: int| 0 <= i < v.len() && (#[trigger] v[i]).0 == t;
    v.lemma_filter_contains(not_tid(tid), i);
    let f = v.filter(not_tid(tid));
    assert(f.contains(v[i]));
    let j = choose|j: int| 0 <= j < f.len() && f[j] == v[i];
    assert(f[j].0 == t);
}

proof fn lemma_has_tid_push(v: Seq<(u64, u64)>, e: (u64, u64), t: u64)
    requires
        has_tid(v, t),
    ensures
        has_tid(v.push(e), t),
{
    let i = choose|i: int| 0 <= i < v.len() && (#[trigger] v[i]).0 == t;
    assert(v.push(e)[i] == v[i]);
}

proof fn lemma_filter_unique(v: Seq<(u64, u64)>, pred: spec_fn((u64, u64)) -> bool)
    requires
        tids_unique(v),
    ensures
        tids_unique(v.filter(pred)),
    decreases v.len(),
{
    reveal(Seq::filter);
    if v.len() > 0 {
        lemma_filter_unique(v.drop_last(), pred);
        let f = v.drop_last().filter(pred);
        if pred(v.last()) {
            assert forall|i: int, j: int| 0 <= i < j < f.push(v.last()).len() implies (#[trigger] f.push(v.last())[i]).0 != (#[trigger] f.push(v.last())[j]).0 by {
                if j == f.len() {
                    let x = f[i];
                    v.drop_last().lemma_filter_contains_rev(pred, x);
                    assert(f.contains(x));
                    assert(v.drop_last().contains(x));
                    let m = choose|m: int| 0 <= m < v.drop_last().len() && v.drop_last()[m] == x;
                    assert(v[m] == x);
                    assert(v[m].0 != v[v.len() - 1].0);
                }
            }
        }
    }
}

} // verus!
