//! The two line shapes of the tracer's output: map summaries
//! (`@<map>[<key>]: <value>`) and frame markers (`=> start ...`, `=> end ...`).
use vstd::prelude::*;

use crate::lits::{lit_marker_end, lit_marker_start};
use crate::text::{
    dec_fits, dec_value, hex_fits, hex_value, int_fits, int_value, parse_dec, parse_hex, parse_i64,
    parse_u32, starts_with, starts_with_spec, strip_0x, subslice, views,
};

verus! {

/// Index of the first `b` in `s` at or after `i`, or -1.
pub open spec fn find_first(s: Seq<u8>, b: u8, i: int) -> int
    decreases s.len() - i,
{
    if i < 0 || i >= s.len() {
        -1
    } else if s[i] == b {
        i
    } else {
        find_first(s, b, i + 1)
    }
}

/// `s` holds `]: ` at index `k`.
pub open spec fn is_close_at(s: Seq<u8>, k: int) -> bool {
    0 <= k && k + 3 <= s.len() && s[k] == 93 && s[k + 1] == 58 && s[k + 2] == 32
}

/// The last index below `n` at which `s` holds `]: `, or -1.
pub open spec fn find_last_close(s: Seq<u8>, n: int) -> int
    decreases n,
{
    if n <= 0 {
        -1
    } else if is_close_at(s, n - 1) {
        n - 1
    } else {
        find_last_close(s, n - 1)
    }
}

/// The map name, key text and value text of a summary line `@<name>[<key>]: <value>`.
/// The key runs to the last `]: ` of the line.
pub open spec fn summary_parts(s: Seq<u8>) -> Option<(Seq<u8>, Seq<u8>, Seq<u8>)> {
    let b = find_first(s, 91, 1);
    let k = find_last_close(s, s.len() as int);
    if s.len() > 0 && s[0] == 64 && b >= 2 && k > b {
        Some((s.subrange(1, b), s.subrange(b + 1, k), s.subrange(k + 3, s.len() as int)))
    } else {
        None
    }
}

/// The fields of `s` between occurrences of `, `.
pub open spec fn list_spec(s: Seq<u8>) -> Seq<Seq<u8>>
    decreases s.len(),
{
    if s.len() == 0 {
        seq![Seq::<u8>::empty()]
    } else if s.len() >= 2 && s[s.len() - 2] == 44 && s.last() == 32 {
        list_spec(s.subrange(0, s.len() - 2)).push(Seq::<u8>::empty())
    } else {
        let p = list_spec(s.drop_last());
        p.update(p.len() - 1, p.last().push(s.last()))
    }
}

/// A `, `-separated list has at least one field.
pub proof fn lemma_list_nonempty(s: Seq<u8>)
    ensures
        list_spec(s).len() >= 1,
    decreases s.len(),
{
    if s.len() >= 2 && s[s.len() - 2] == 44 && s.last() == 32 {
        lemma_list_nonempty(s.subrange(0, s.len() - 2));
    } else if s.len() > 0 {
        lemma_list_nonempty(s.drop_last());
    }
}

/// The fields of a parenthesised tuple `(a, b, ...)`: the first and last bytes are dropped
/// whatever they are.
pub open spec fn tuple_spec(s: Seq<u8>) -> Option<Seq<Seq<u8>>> {
    if s.len() >= 2 {
        Some(list_spec(s.subrange(1, s.len() - 1)))
    } else {
        None
    }
}

/// What the leading `=>` of a frame-marker line announces.
pub enum Marker {
    Start,
    End,
}

/// The frame marker a line starting with `=>` denotes, if any.
pub open spec fn marker_spec(s: Seq<u8>) -> Option<Marker> {
    if starts_with_spec(s, lit_marker_start()) {
        Some(Marker::Start)
    } else if starts_with_spec(s, lit_marker_end()) {
        Some(Marker::End)
    } else {
        None
    }
}

/// Splits a summary line into its map name, key text and value text.
pub fn split_summary(s: &[u8]) -> (r: Option<(Vec<u8>, Vec<u8>, Vec<u8>)>)
    ensures
        match r {
            Some((n, k, v)) => summary_parts(s@) == Some((n@, k@, v@)),
            None => summary_parts(s@).is_none(),
        },
{
    if s.len() == 0 || s[0] != 64 {
        return None;
    }
    let mut b: usize = 1;
    while b < s.len() && s[b] != 91
        invariant
            1 <= b <= s.len(),
            find_first(s@, 91, 1) == find_first(s@, 91, b as int),
        decreases s.len() - b,
    {
        b = b + 1;
    }
    assert(find_first(s@, 91, b as int) == (if b < s.len() { b as int } else { -1 }));
    if b >= s.len() || b < 2 {
        return None;
    }
    let mut n: usize = s.len();
    while n > 0 && !(n < s.len() && n + 1 < s.len() && s[n - 1] == 93 && s[n] == 58 && s[n + 1]
        == 32)
        invariant
            0 <= n <= s.len(),
            find_last_close(s@, s@.len() as int) == find_last_close(s@, n as int),
        decreases n,
    {
        n = n - 1;
    }
    if n == 0 {
        return None;
    }
    let k = n - 1;
    assert(is_close_at(s@, k as int));
    if k <= b {
        return None;
    }
    let name = subslice(s, 1, b);
    let key = subslice(s, b + 1, k);
    let value = subslice(s, k + 3, s.len());
    Some((name, key, value))
}

/// Splits `s` at every `, `.
pub fn split_list(s: &[u8]) -> (r: Vec<Vec<u8>>)
    ensures
        views(r@) == list_spec(s@),
        r@.len() >= 1,
        forall|i: int| 0 <= i < r@.len() ==> #[trigger] r@[i]@ == list_spec(s@)[i],
{
    proof {
        lemma_list_nonempty(s@);
    }
    let mut fields: Vec<Vec<u8>> = Vec::new();
    let mut cur: Vec<u8> = Vec::new();
    let mut i: usize = 0;
    assert(s@.subrange(0, 0) =~= Seq::<u8>::empty());
    while i < s.len()
        invariant
            0 <= i <= s.len(),
            i > 0 && s@[i - 1] == 44 ==> (i >= s.len() || s@[i as int] != 32),
            views(fields@).push(cur@) == list_spec(s@.subrange(0, i as int)),
        decreases s.len() - i,
    {
        let ghost pre = s@.subrange(0, i as int);
        if s[i] == 44 && i + 1 < s.len() && s[i + 1] == 32 {
            let ghost now = s@.subrange(0, i + 2);
            assert(now.subrange(0, now.len() - 2) =~= pre);
            let done = cur;
            fields.push(done);
            cur = Vec::new();
            assert(views(fields@).push(cur@) =~= list_spec(pre).push(Seq::<u8>::empty()));
            i = i + 2;
        } else {
            let b = s[i];
            let ghost now = s@.subrange(0, i + 1);
            assert(now.drop_last() =~= pre);
            assert(!(now.len() >= 2 && now[now.len() - 2] == 44 && now.last() == 32)) by {
                if now.len() >= 2 {
                    assert(now[now.len() - 2] == s@[i - 1]);
                }
            }
            cur.push(b);
            let ghost p = list_spec(pre);
            assert(views(fields@).push(cur@) =~= p.update(p.len() - 1, p.last().push(b)));
            i = i + 1;
        }
    }
    assert(s@.subrange(0, s@.len() as int) =~= s@);
    fields.push(cur);
    assert(views(fields@) =~= list_spec(s@));
    assert forall|i: int| 0 <= i < fields@.len() implies #[trigger] fields@[i]@ == list_spec(s@)[i] by {
        assert(views(fields@)[i] == fields@[i]@);
    }
    fields
}

/// The fields of a parenthesised tuple value.
pub fn split_tuple(s: &[u8]) -> (r: Option<Vec<Vec<u8>>>)
    ensures
        match r {
            Some(f) => tuple_spec(s@) == Some(views(f@)) && forall|i: int|
                0 <= i < f@.len() ==> #[trigger] f@[i]@ == views(f@)[i],
            None => tuple_spec(s@).is_none(),
        },
{
    if s.len() < 2 {
        return None;
    }
    let inner = subslice(s, 1, s.len() - 1);
    Some(split_list(inner.as_slice()))
}

/// Classifies a frame-marker line.
pub fn parse_marker(s: &[u8]) -> (r: Option<Marker>)
    ensures
        r == marker_spec(s@),
{
    if starts_with(s, &[61u8, 62, 32, 115, 116, 97, 114, 116]) {
        Some(Marker::Start)
    } else if starts_with(s, &[61u8, 62, 32, 101, 110, 100]) {
        Some(Marker::End)
    } else {
        None
    }
}

/// Field `i` of `f` as a 64-bit decimal number.
pub open spec fn fu64(f: Seq<Seq<u8>>, i: int) -> Option<u64> {
    if 0 <= i < f.len() && dec_fits(f[i], u64::MAX as int) {
        Some(dec_value(f[i]) as u64)
    } else {
        None
    }
}

/// Field `i` of `f` as a 32-bit decimal number.
pub open spec fn fu32(f: Seq<Seq<u8>>, i: int) -> Option<u32> {
    if 0 <= i < f.len() && dec_fits(f[i], u32::MAX as int) {
        Some(dec_value(f[i]) as u32)
    } else {
        None
    }
}

/// Field `i` of `f` as a signed decimal number.
pub open spec fn fi64(f: Seq<Seq<u8>>, i: int) -> Option<i64> {
    if 0 <= i < f.len() && int_fits(f[i]) {
        Some(int_value(f[i]) as i64)
    } else {
        None
    }
}

/// Field `i` of `f` as a hexadecimal number with an optional `0x`.
pub open spec fn fhex(f: Seq<Seq<u8>>, i: int) -> Option<u64> {
    if 0 <= i < f.len() && hex_fits(f[i]) {
        Some(hex_value(strip_0x(f[i])) as u64)
    } else {
        None
    }
}

/// Reads field `i` as a 64-bit decimal number.
pub fn field_u64(f: &Vec<Vec<u8>>, i: usize) -> (r: Option<u64>)
    ensures
        r == fu64(views(f@), i as int),
{
    if i < f.len() {
        assert(views(f@)[i as int] == f@[i as int]@);
        parse_dec(f[i].as_slice())
    } else {
        None
    }
}

/// Reads field `i` as a 32-bit decimal number.
pub fn field_u32(f: &Vec<Vec<u8>>, i: usize) -> (r: Option<u32>)
    ensures
        r == fu32(views(f@), i as int),
{
    if i < f.len() {
        assert(views(f@)[i as int] == f@[i as int]@);
        parse_u32(f[i].as_slice())
    } else {
        None
    }
}

/// Reads field `i` as a signed decimal number.
pub fn field_i64(f: &Vec<Vec<u8>>, i: usize) -> (r: Option<i64>)
    ensures
        r == fi64(views(f@), i as int),
{
    if i < f.len() {
        assert(views(f@)[i as int] == f@[i as int]@);
        parse_i64(f[i].as_slice())
    } else {
        None
    }
}

/// Reads field `i` as a hexadecimal number.
pub fn field_hex(f: &Vec<Vec<u8>>, i: usize) -> (r: Option<u64>)
    ensures
        r == fhex(views(f@), i as int),
{
    if i < f.len() {
        assert(views(f@)[i as int] == f@[i as int]@);
        parse_hex(f[i].as_slice())
    } else {
        None
    }
}

/// A copy of field `i`.
pub fn field_text(f: &Vec<Vec<u8>>, i: usize) -> (r: Option<Vec<u8>>)
    ensures
        match r {
            Some(t) => i < f@.len() && t@ == views(f@)[i as int],
            None => i >= f@.len(),
        },
{
    if i < f.len() {
        assert(views(f@)[i as int] == f@[i as int]@);
        Some(subslice(f[i].as_slice(), 0, f[i].len()))
    } else {
        None
    }
}

} // verus!
