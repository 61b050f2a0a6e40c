//! The CSV sink's rule: a data file gets its header once, when it is created, and every
//! write after that appends rows only.
use vstd::prelude::*;

use crate::render::append;

verus! {

/// One row bound for one data file, with the header that file starts with.
#[derive(Debug, PartialEq, Eq, Clone)]
pub struct CsvRecord {
    pub path: Vec<u8>,
    pub header: Vec<u8>,
    pub row: Vec<u8>,
}

pub open spec fn record_view(r: CsvRecord) -> (Seq<u8>, Seq<u8>, Seq<u8>) {
    (r.path@, r.header@, r.row@)
}

pub open spec fn records_view(v: Seq<CsvRecord>) -> Seq<(Seq<u8>, Seq<u8>, Seq<u8>)> {
    v.map_values(|r: CsvRecord| record_view(r))
}

/// What one write puts in a file: the header and the row when the file does not exist
/// yet, the row alone when it does.
pub open spec fn payload_spec(exists: bool, header: Seq<u8>, row: Seq<u8>) -> Seq<u8> {
    if exists {
        row
    } else {
        header + row
    }
}

/// The bytes to append to a data file for one row.
pub fn payload(exists: bool, header: &[u8], row: &[u8]) -> (r: Vec<u8>)
    ensures
        r@ == payload_spec(exists, header@, row@),
{
    let mut v: Vec<u8> = Vec::new();
    if !exists {
        append(&mut v, header);
    }
    append(&mut v, row);
    assert(v@ =~= payload_spec(exists, header@, row@));
    v
}

/// The content of a file that did not exist, after the rows were written one by one.
pub open spec fn content_after(header: Seq<u8>, rows: Seq<Seq<u8>>) -> Seq<u8>
    decreases rows.len(),
{
    if rows.len() == 0 {
        Seq::empty()
    } else {
        content_after(header, rows.drop_last()) + payload_spec(rows.len() > 1, header, rows.last())
    }
}

/// The rows, one after the other.
pub open spec fn concat(rows: Seq<Seq<u8>>) -> Seq<u8>
    decreases rows.len(),
{
    if rows.len() == 0 {
        Seq::empty()
    } else {
        concat(rows.drop_last()) + rows.last()
    }
}

/// A data file written row by row from nothing holds its header exactly once, at its
/// start, followed by the rows in the order they were written.
pub proof fn lemma_header_once(header: Seq<u8>, rows: Seq<Seq<u8>>)
    requires
        rows.len() >= 1,
    ensures
        content_after(header, rows) == header + concat(rows),
        content_after(header, rows).subrange(0, header.len() as int) == header,
        content_after(header, rows).subrange(header.len() as int, content_after(header, rows).len() as int) == concat(rows),
    decreases rows.len(),
{
    if rows.len() == 1 {
        assert(rows.drop_last() =~= Seq::<Seq<u8>>::empty());
        assert(Seq::<u8>::empty() + (header + rows.last()) =~= header + (Seq::<u8>::empty() + rows.last()));
    } else {
        lemma_header_once(header, rows.drop_last());
        assert(header + concat(rows.drop_last()) + rows.last() =~= header + (concat(rows.drop_last()) + rows.last()));
    }
    let c = content_after(header, rows);
    assert(c.subrange(0, header.len() as int) =~= header);
    assert(c.subrange(header.len() as int, c.len() as int) =~= concat(rows));
}

} // verus!
