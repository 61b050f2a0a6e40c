//! Byte-level tokenising and number parsing for the tracer's wire format.
use vstd::prelude::*;

verus! {

/// ASCII whitespace: space, tab, line feed, vertical tab, form feed, carriage return.
pub open spec fn is_ws(b: u8) -> bool {
    b == 32 || (9 <= b && b <= 13)
}

pub open spec fn is_digit(b: u8) -> bool {
    48 <= b && b <= 57
}

pub open spec fn all_digits(s: Seq<u8>) -> bool {
    forall|i: int| 0 <= i < s.len() ==> is_digit(#[trigger] s[i])
}

/// The value of a string of decimal digits.
pub open spec fn dec_value(s: Seq<u8>) -> nat
    decreases s.len(),
{
    if s.len() == 0 {
        0
    } else {
        dec_value(s.drop_last()) * 10 + (s.last() as int - 48) as nat
    }
}

/// `s` is a non-empty string of decimal digits whose value is at most `max`.
pub open spec fn dec_fits(s: Seq<u8>, max: int) -> bool {
    s.len() > 0 && all_digits(s) && dec_value(s) <= max
}

/// The value of a hexadecimal digit (either case), or -1.
pub open spec fn hex_digit(b: u8) -> int {
    if 48 <= b && b <= 57 {
        b as int - 48
    } else if 97 <= b && b <= 102 {
        b as int - 87
    } else if 65 <= b && b <= 70 {
        b as int - 55
    } else {
        -1
    }
}

pub open spec fn all_hex(s: Seq<u8>) -> bool {
    forall|i: int| 0 <= i < s.len() ==> hex_digit(#[trigger] s[i]) >= 0
}

/// The value of a string of hexadecimal digits.
pub open spec fn hex_value(s: Seq<u8>) -> nat
    decreases s.len(),
{
    if s.len() == 0 {
        0
    } else {
        hex_value(s.drop_last()) * 16 + hex_digit(s.last()) as nat
    }
}

/// `s` without one leading `0x`, if it has one.
pub open spec fn strip_0x(s: Seq<u8>) -> Seq<u8> {
    if s.len() >= 2 && s[0] == 48 && s[1] == 120 {
        s.subrange(2, s.len() as int)
    } else {
        s
    }
}

/// `s` is a non-empty hexadecimal number, after an optional `0x`, that fits in 64 bits.
pub open spec fn hex_fits(s: Seq<u8>) -> bool {
    let d = strip_0x(s);
    d.len() > 0 && all_hex(d) && hex_value(d) <= u64::MAX
}

/// `s` is a decimal integer, with an optional leading `-`, that fits in an `i64`.
pub open spec fn int_fits(s: Seq<u8>) -> bool {
    if s.len() > 0 && s[0] == 45 {
        dec_fits(s.subrange(1, s.len() as int), 0x8000_0000_0000_0000)
    } else {
        dec_fits(s, i64::MAX as int)
    }
}

/// The value of a decimal integer with an optional leading `-`.
pub open spec fn int_value(s: Seq<u8>) -> int {
    if s.len() > 0 && s[0] == 45 {
        -dec_value(s.subrange(1, s.len() as int))
    } else {
        dec_value(s) as int
    }
}

/// The fields of `s` between occurrences of `sep` (an empty `s` is one empty field).
pub open spec fn split_spec(s: Seq<u8>, sep: u8) -> Seq<Seq<u8>>
    decreases s.len(),
{
    if s.len() == 0 {
        seq![Seq::<u8>::empty()]
    } else if s.last() == sep {
        split_spec(s.drop_last(), sep).push(Seq::<u8>::empty())
    } else {
        let p = split_spec(s.drop_last(), sep);
        p.update(p.len() - 1, p.last().push(s.last()))
    }
}

/// A split has at least one field.
pub proof fn lemma_split_nonempty(s: Seq<u8>, sep: u8)
    ensures
        split_spec(s, sep).len() >= 1,
    decreases s.len(),
{
    if s.len() > 0 {
        lemma_split_nonempty(s.drop_last(), sep);
    }
}

/// The maximal runs of non-whitespace bytes of `s`, in order.
pub open spec fn words_spec(s: Seq<u8>) -> Seq<Seq<u8>>
    decreases s.len(),
{
    if s.len() == 0 {
        Seq::<Seq<u8>>::empty()
    } else if is_ws(s.last()) {
        words_spec(s.drop_last())
    } else if s.len() >= 2 && !is_ws(s[s.len() - 2]) {
        let p = words_spec(s.drop_last());
        p.update(p.len() - 1, p.last().push(s.last()))
    } else {
        words_spec(s.drop_last()).push(seq![s.last()])
    }
}

/// `s` without trailing whitespace.
pub open spec fn trim_end_spec(s: Seq<u8>) -> Seq<u8>
    decreases s.len(),
{
    if s.len() > 0 && is_ws(s.last()) {
        trim_end_spec(s.drop_last())
    } else {
        s
    }
}

/// `s` without leading whitespace.
pub open spec fn trim_start_spec(s: Seq<u8>) -> Seq<u8>
    decreases s.len(),
{
    if s.len() > 0 && is_ws(s[0]) {
        trim_start_spec(s.subrange(1, s.len() as int))
    } else {
        s
    }
}

/// `s` without leading or trailing whitespace.
pub open spec fn trim_spec(s: Seq<u8>) -> Seq<u8> {
    trim_start_spec(trim_end_spec(s))
}

/// `p` is a prefix of `s`.
pub open spec fn starts_with_spec(s: Seq<u8>, p: Seq<u8>) -> bool {
    p.len() <= s.len() && s.subrange(0, p.len() as int) == p
}

proof fn lemma_dec_prefix_monotone(s: Seq<u8>, i: int, j: int)
    requires
        0 <= i <= j <= s.len(),
        all_digits(s),
    ensures
        dec_value(s.subrange(0, i)) <= dec_value(s.subrange(0, j)),
    decreases j - i,
{
    if i < j {
        lemma_dec_prefix_monotone(s, i, j - 1);
        assert(s.subrange(0, j).drop_last() =~= s.subrange(0, j - 1));
    }
}

/// Parses a decimal number made only of digits.
pub fn parse_dec(s: &[u8]) -> (r: Option<u64>)
    ensures
        r.is_some() <==> dec_fits(s@, u64::MAX as int),
        r.is_some() ==> r.unwrap() == dec_value(s@),
{
    if s.len() == 0 {
        return None;
    }
    let mut acc: u64 = 0;
    let mut i: usize = 0;
    while i < s.len()
        invariant
            0 <= i <= s.len(),
            all_digits(s@.subrange(0, i as int)),
            acc == dec_value(s@.subrange(0, i as int)),
        decreases s.len() - i,
    {
        let b = s[i];
        assert(s@.subrange(0, i + 1).drop_last() =~= s@.subrange(0, i as int));
        if b < 48 || b > 57 {
            assert(!is_digit(s@[i as int]));
            return None;
        }
        let d = (b - 48) as u64;
        if acc > (u64::MAX - d) / 10 {
            assert(all_digits(s@) ==> dec_value(s@.subrange(0, i + 1)) <= dec_value(s@)) by {
                if all_digits(s@) {
                    lemma_dec_prefix_monotone(s@, i + 1, s@.len() as int);
                    assert(s@.subrange(0, s@.len() as int) =~= s@);
                }
            }
            assert(acc * 10 + d > u64::MAX) by (nonlinear_arith)
                requires acc > (u64::MAX - d) / 10, d <= 9;
            return None;
        }
        assert(acc * 10 + d <= u64::MAX) by (nonlinear_arith)
            requires acc <= (u64::MAX - d) / 10, d <= 9;
        acc = acc * 10 + d;
        i = i + 1;
        assert(all_digits(s@.subrange(0, i as int))) by {
            assert forall|k: int| 0 <= k < i implies is_digit(#[trigger] s@.subrange(0, i as int)[k]) by {
                if k < i - 1 {
                    assert(s@.subrange(0, i as int)[k] == s@.subrange(0, i - 1)[k]);
                }
            }
        }
    }
    assert(s@.subrange(0, s@.len() as int) =~= s@);
    Some(acc)
}

proof fn lemma_hex_prefix_monotone(s: Seq<u8>, i: int, j: int)
    requires
        0 <= i <= j <= s.len(),
        all_hex(s),
    ensures
        hex_value(s.subrange(0, i)) <= hex_value(s.subrange(0, j)),
    decreases j - i,
{
    if i < j {
        lemma_hex_prefix_monotone(s, i, j - 1);
        assert(s.subrange(0, j).drop_last() =~= s.subrange(0, j - 1));
    }
}

/// The bytes `s[start..end]` as a new vector.
pub fn subslice(s: &[u8], start: usize, end: usize) -> (r: Vec<u8>)
    requires
        start <= end <= s.len(),
    ensures
        r@ == s@.subrange(start as int, end as int),
{
    let mut r: Vec<u8> = Vec::new();
    let mut i: usize = start;
    while i < end
        invariant
            start <= i <= end <= s.len(),
            r@ == s@.subrange(start as int, i as int),
        decreases end - i,
    {
        r.push(s[i]);
        i = i + 1;
        assert(r@ =~= s@.subrange(start as int, i as int));
    }
    r
}

/// Byte-wise equality.
pub fn bytes_eq(a: &[u8], b: &[u8]) -> (r: bool)
    ensures
        r == (a@ == b@),
{
    if a.len() != b.len() {
        return false;
    }
    let mut i: usize = 0;
    while i < a.len()
        invariant
            a.len() == b.len(),
            0 <= i <= a.len(),
            forall|k: int| 0 <= k < i ==> a@[k] == b@[k],
        decreases a.len() - i,
    {
        if a[i] != b[i] {
            return false;
        }
        i = i + 1;
    }
    assert(a@ =~= b@);
    true
}

/// Whether `p` is a prefix of `s`.
pub fn starts_with(s: &[u8], p: &[u8]) -> (r: bool)
    ensures
        r == starts_with_spec(s@, p@),
{
    if p.len() > s.len() {
        return false;
    }
    let mut i: usize = 0;
    while i < p.len()
        invariant
            p.len() <= s.len(),
            0 <= i <= p.len(),
            forall|k: int| 0 <= k < i ==> s@[k] == p@[k],
        decreases p.len() - i,
    {
        if s[i] != p[i] {
            assert(s@.subrange(0, p.len() as int)[i as int] != p@[i as int]);
            return false;
        }
        i = i + 1;
    }
    assert(s@.subrange(0, p.len() as int) =~= p@);
    true
}

/// Parses a hexadecimal number of either case, after an optional `0x`.
pub fn parse_hex(s: &[u8]) -> (r: Option<u64>)
    ensures
        r.is_some() <==> hex_fits(s@),
        r.is_some() ==> r.unwrap() == hex_value(strip_0x(s@)),
{
    let start: usize = if s.len() >= 2 && s[0] == 48 && s[1] == 120 { 2 } else { 0 };
    let d = subslice(s, start, s.len());
    assert(d@ == strip_0x(s@));
    if d.len() == 0 {
        return None;
    }
    let mut acc: u64 = 0;
    let mut i: usize = 0;
    while i < d.len()
        invariant
            0 <= i <= d.len(),
            d@ == strip_0x(s@),
            all_hex(d@.subrange(0, i as int)),
            acc == hex_value(d@.subrange(0, i as int)),
        decreases d.len() - i,
    {
        let b = d[i];
        assert(d@.subrange(0, i + 1).drop_last() =~= d@.subrange(0, i as int));
        let v: u64 = if 48 <= b && b <= 57 {
            (b - 48) as u64
        } else if 97 <= b && b <= 102 {
            (b - 87) as u64
        } else if 65 <= b && b <= 70 {
            (b - 55) as u64
        } else {
            assert(hex_digit(d@[i as int]) < 0);
            assert(!all_hex(d@));
            return None;
        };
        assert(v == hex_digit(d@[i as int]));
        assert(d@.subrange(0, i + 1).last() == d@[i as int]);
        if acc > (u64::MAX - v) / 16 {
            assert(all_hex(d@) ==> hex_value(d@.subrange(0, i + 1)) <= hex_value(d@)) by {
                if all_hex(d@) {
                    lemma_hex_prefix_monotone(d@, i + 1, d@.len() as int);
                    assert(d@.subrange(0, d@.len() as int) =~= d@);
                }
            }
            assert(acc * 16 + v > u64::MAX) by (nonlinear_arith)
                requires acc > (u64::MAX - v) / 16, v <= 15;
            return None;
        }
        assert(acc * 16 + v <= u64::MAX) by (nonlinear_arith)
            requires acc <= (u64::MAX - v) / 16, v <= 15;
        acc = acc * 16 + v;
        i = i + 1;
        assert(all_hex(d@.subrange(0, i as int))) by {
            assert forall|k: int| 0 <= k < i implies hex_digit(#[trigger] d@.subrange(0, i as int)[k]) >= 0 by {
                if k < i - 1 {
                    assert(d@.subrange(0, i as int)[k] == d@.subrange(0, i - 1)[k]);
                }
            }
        }
    }
    assert(d@.subrange(0, d@.len() as int) =~= d@);
    Some(acc)
}

/// Parses a decimal number that must fit in 32 bits.
pub fn parse_u32(s: &[u8]) -> (r: Option<u32>)
    ensures
        r.is_some() <==> dec_fits(s@, u32::MAX as int),
        r.is_some() ==> r.unwrap() == dec_value(s@),
{
    match parse_dec(s) {
        Some(v) => if v <= u32::MAX as u64 {
            Some(v as u32)
        } else {
            None
        },
        None => None,
    }
}

/// Parses a decimal integer with an optional leading `-`.
pub fn parse_i64(s: &[u8]) -> (r: Option<i64>)
    ensures
        r.is_some() <==> int_fits(s@),
        r.is_some() ==> r.unwrap() == int_value(s@),
{
    if s.len() > 0 && s[0] == 45 {
        let rest = subslice(s, 1, s.len());
        match parse_dec(rest.as_slice()) {
            Some(v) => if v < 0x8000_0000_0000_0000 {
                Some(-(v as i64))
            } else if v == 0x8000_0000_0000_0000 {
                Some(i64::MIN)
            } else {
                None
            },
            None => None,
        }
    } else {
        match parse_dec(s) {
            Some(v) => if v <= i64::MAX as u64 {
                Some(v as i64)
            } else {
                None
            },
            None => None,
        }
    }
}

/// The views of a vector of byte strings.
pub open spec fn views(v: Seq<Vec<u8>>) -> Seq<Seq<u8>> {
    v.map_values(|x: Vec<u8>| x@)
}

/// Splits `s` at every `sep`.
pub fn split(s: &[u8], sep: u8) -> (r: Vec<Vec<u8>>)
    ensures
        views(r@) == split_spec(s@, sep),
        r@.len() == split_spec(s@, sep).len(),
        r@.len() >= 1,
{
    proof {
        lemma_split_nonempty(s@, sep);
    }
    let mut fields: Vec<Vec<u8>> = Vec::new();
    let mut cur: Vec<u8> = Vec::new();
    let mut i: usize = 0;
    assert(s@.subrange(0, 0) =~= Seq::<u8>::empty());
    while i < s.len()
        invariant
            0 <= i <= s.len(),
            views(fields@).push(cur@) == split_spec(s@.subrange(0, i as int), sep),
        decreases s.len() - i,
    {
        let ghost pre = s@.subrange(0, i as int);
        let b = s[i];
        assert(s@.subrange(0, i + 1).drop_last() =~= pre);
        if b == sep {
            let done = cur;
            fields.push(done);
            cur = Vec::new();
            assert(views(fields@).push(cur@) =~= split_spec(pre, sep).push(Seq::<u8>::empty()));
        } else {
            cur.push(b);
            let ghost p = split_spec(pre, sep);
            assert(views(fields@).push(cur@) =~= p.update(p.len() - 1, p.last().push(b)));
        }
        i = i + 1;
    }
    assert(s@.subrange(0, s@.len() as int) =~= s@);
    fields.push(cur);
    assert(views(fields@) =~= split_spec(s@, sep));
    fields
}

/// The whitespace-separated words of `s`.
pub fn words(s: &[u8]) -> (r: Vec<Vec<u8>>)
    ensures
        views(r@) == words_spec(s@),
        forall|i: int| 0 <= i < r@.len() ==> #[trigger] r@[i]@ == words_spec(s@)[i],
{
    let mut fields: Vec<Vec<u8>> = Vec::new();
    let mut cur: Vec<u8> = Vec::new();
    let mut i: usize = 0;
    assert(s@.subrange(0, 0) =~= Seq::<u8>::empty());
    while i < s.len()
        invariant
            0 <= i <= s.len(),
            cur@.len() > 0 <==> (i > 0 && !is_ws(s@[i - 1])),
            cur@.len() > 0 ==> views(fields@).push(cur@) == words_spec(s@.subrange(0, i as int)),
            cur@.len() == 0 ==> views(fields@) == words_spec(s@.subrange(0, i as int)),
        decreases s.len() - i,
    {
        let ghost pre = s@.subrange(0, i as int);
        let b = s[i];
        let ghost now = s@.subrange(0, i + 1);
        assert(now.drop_last() =~= pre);
        assert(now.last() == b);
        if b == 32 || (9 <= b && b <= 13) {
            if cur.len() > 0 {
                let done = cur;
                fields.push(done);
                cur = Vec::new();
            }
        } else {
            if cur.len() > 0 {
                assert(now[now.len() - 2] == s@[i - 1]);
                cur.push(b);
                let ghost p = words_spec(pre);
                assert(views(fields@).push(cur@) =~= p.update(p.len() - 1, p.last().push(b)));
            } else {
                assert(i > 0 ==> now[now.len() - 2] == s@[i - 1]);
                cur.push(b);
                assert(cur@ =~= seq![b]);
                assert(views(fields@).push(cur@) =~= words_spec(pre).push(seq![b]));
            }
        }
        i = i + 1;
    }
    assert(s@.subrange(0, s@.len() as int) =~= s@);
    if cur.len() > 0 {
        fields.push(cur);
    }
    assert(views(fields@) =~= words_spec(s@));
    assert forall|i: int| 0 <= i < fields@.len() implies #[trigger] fields@[i]@ == words_spec(s@)[i] by {
        assert(views(fields@)[i] == fields@[i]@);
    }
    fields
}

/// `s` without leading or trailing whitespace.
pub fn trim(s: &[u8]) -> (r: Vec<u8>)
    ensures
        r@ == trim_spec(s@),
{
    let mut end: usize = s.len();
    assert(s@.subrange(0, end as int) =~= s@);
    while end > 0 && (s[end - 1] == 32 || (9 <= s[end - 1] && s[end - 1] <= 13))
        invariant
            0 <= end <= s.len(),
            trim_end_spec(s@.subrange(0, end as int)) == trim_end_spec(s@),
        decreases end,
    {
        assert(s@.subrange(0, end as int).drop_last() =~= s@.subrange(0, end - 1));
        end = end - 1;
    }
    let ghost e = s@.subrange(0, end as int);
    assert(trim_end_spec(e) == e);
    let mut start: usize = 0;
    assert(e.subrange(0, e.len() as int) =~= e);
    while start < end && (s[start] == 32 || (9 <= s[start] && s[start] <= 13))
        invariant
            0 <= start <= end <= s.len(),
            e == s@.subrange(0, end as int),
            trim_start_spec(s@.subrange(start as int, end as int)) == trim_start_spec(e),
        decreases end - start,
    {
        let ghost t = s@.subrange(start as int, end as int);
        assert(t.subrange(1, t.len() as int) =~= s@.subrange(start + 1, end as int));
        start = start + 1;
    }
    let ghost t = s@.subrange(start as int, end as int);
    assert(trim_start_spec(t) == t);
    subslice(s, start, end)
}

} // verus!
