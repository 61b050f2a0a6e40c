//! Process discovery: which processes of `/proc` to monitor.
use vstd::prelude::*;

use crate::text::{split, split_spec, views};
use crate::wire::{fi64, field_i64};

verus! {

/// Whether the process-name pattern `pattern` compiles and, if so, whether it matches
/// somewhere in `text`.
pub uninterp spec fn regex_outcome(pattern: Seq<char>, text: Seq<char>) -> Option<bool>;

/// Relies on `regex::Regex::new` (the pattern compiles, or not) and `Regex::is_match` (a
/// match anywhere in the text); both depend on the two strings alone.
#[verifier::external_body]
fn regex_is_match(pattern: &str, text: &str) -> (r: Option<bool>)
    ensures
        r == regex_outcome(pattern@, text@),
{
    match regex::Regex::new(pattern) {
        Ok(re) => Some(re.is_match(text)),
        Err(_) => None,
    }
}

/// The kernel-thread flag of a task's `flags` field.
pub open spec fn is_kthread_spec(flags: i64) -> bool {
    flags & 0x0020_0000 != 0
}

/// `s` without its `(` and `)` bytes.
pub open spec fn strip_parens(s: Seq<u8>) -> Seq<u8>
    decreases s.len(),
{
    if s.len() == 0 {
        s
    } else if s.last() == 40 || s.last() == 41 {
        strip_parens(s.drop_last())
    } else {
        strip_parens(s.drop_last()).push(s.last())
    }
}

/// The command name (field 2, parentheses removed) and the flags (field 9) of a
/// `/proc/<pid>/stat` line, whose fields are separated by single spaces.
pub open spec fn proc_stat_spec(s: Seq<u8>) -> Option<(Seq<u8>, i64)> {
    let f = split_spec(s, 32);
    if f.len() >= 9 && fi64(f, 8) is Some {
        Some((strip_parens(f[1]), fi64(f, 8).unwrap()))
    } else {
        None
    }
}

/// Reads the command name and the flags of a `/proc/<pid>/stat` line.
pub fn parse_proc_stat(content: &[u8]) -> (r: Option<(Vec<u8>, i64)>)
    ensures
        match r {
            Some((comm, flags)) => proc_stat_spec(content@) == Some((comm@, flags)),
            None => proc_stat_spec(content@) is None,
        },
{
    let f = split(content, 32);
    if f.len() < 9 {
        return None;
    }
    let flags = match field_i64(&f, 8) {
        Some(x) => x,
        None => return None,
    };
    assert(views(f@)[1] == f@[1]@);
    let raw = f[1].as_slice();
    let mut comm: Vec<u8> = Vec::new();
    let mut i: usize = 0;
    assert(raw@.subrange(0, 0) =~= Seq::<u8>::empty());
    while i < raw.len()
        invariant
            0 <= i <= raw@.len(),
            comm@ == strip_parens(raw@.subrange(0, i as int)),
        decreases raw@.len() - i,
    {
        assert(raw@.subrange(0, i + 1).drop_last() =~= raw@.subrange(0, i as int));
        if raw[i] != 40 && raw[i] != 41 {
            comm.push(raw[i]);
        }
        i = i + 1;
    }
    assert(raw@.subrange(0, i as int) =~= raw@);
    Some((comm, flags))
}

/// Whether a process with command name `comm` and task flags `flags` is to be monitored:
/// it is a kernel thread exactly when `kthread` asks for one, and `pattern` matches its
/// name; `None` when the pattern does not compile.
pub fn select_process(pattern: &str, comm: &str, flags: i64, kthread: bool) -> (r: Option<bool>)
    ensures
        is_kthread_spec(flags) != kthread ==> r == Some(false),
        is_kthread_spec(flags) == kthread ==> r == regex_outcome(pattern@, comm@),
{
    let is_kthread = flags & 0x0020_0000 != 0;
    if is_kthread != kthread {
        return Some(false);
    }
    regex_is_match(pattern, comm)
}

} // verus!
