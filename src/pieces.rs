//! The fixed pieces of CSV rows, CSV headers and data-file names.
use vstd::prelude::*;

use crate::render::append;

verus! {

/// The bytes of `/wait/`.
pub open spec fn wait_dir() -> Seq<u8> {
    seq![47u8, 119, 97, 105, 116, 47]
}

/// Appends `/wait/`.
pub fn push_wait_dir(v: &mut Vec<u8>)
    ensures
        final(v)@ == old(v)@ + wait_dir(),
{
    append(v, &[47u8, 119, 97, 105, 116, 47]);
}

/// The bytes of `/wake/`.
pub open spec fn wake_dir() -> Seq<u8> {
    seq![47u8, 119, 97, 107, 101, 47]
}

/// Appends `/wake/`.
pub fn push_wake_dir(v: &mut Vec<u8>)
    ensures
        final(v)@ == old(v)@ + wake_dir(),
{
    append(v, &[47u8, 119, 97, 107, 101, 47]);
}

/// The bytes of `.csv`.
pub open spec fn csv_ext() -> Seq<u8> {
    seq![46u8, 99, 115, 118]
}

/// Appends `.csv`.
pub fn push_csv_ext(v: &mut Vec<u8>)
    ensures
        final(v)@ == old(v)@ + csv_ext(),
{
    append(v, &[46u8, 99, 115, 118]);
}

/// The bytes of `-`.
pub open spec fn dash() -> Seq<u8> {
    seq![45u8]
}

/// Appends `-`.
pub fn push_dash(v: &mut Vec<u8>)
    ensures
        final(v)@ == old(v)@ + dash(),
{
    append(v, &[45u8]);
}

/// The bytes of `,`.
pub open spec fn comma() -> Seq<u8> {
    seq![44u8]
}

/// Appends `,`.
pub fn push_comma(v: &mut Vec<u8>)
    ensures
        final(v)@ == old(v)@ + comma(),
{
    append(v, &[44u8]);
}

/// The bytes of `\n`.
pub open spec fn newline() -> Seq<u8> {
    seq![10u8]
}

/// Appends `\n`.
pub fn push_newline(v: &mut Vec<u8>)
    ensures
        final(v)@ == old(v)@ + newline(),
{
    append(v, &[10u8]);
}

/// The bytes of `/`.
pub open spec fn slash() -> Seq<u8> {
    seq![47u8]
}

/// Appends `/`.
pub fn push_slash(v: &mut Vec<u8>)
    ensures
        final(v)@ == old(v)@ + slash(),
{
    append(v, &[47u8]);
}

/// The bytes of `epoch_ms,futex_wait_ns,futex_count\n`.
pub open spec fn futex_wait_header() -> Seq<u8> {
    seq![101u8, 112, 111, 99, 104, 95, 109, 115, 44, 102, 117, 116, 101, 120, 95, 119, 97, 105, 116, 95, 110, 115, 44, 102, 117, 116, 101, 120, 95, 99, 111, 117, 110, 116, 10]
}

/// Appends `epoch_ms,futex_wait_ns,futex_count\n`.
pub fn push_futex_wait_header(v: &mut Vec<u8>)
    ensures
        final(v)@ == old(v)@ + futex_wait_header(),
{
    append(v, &[101u8, 112, 111, 99, 104, 95, 109, 115, 44, 102, 117, 116, 101, 120, 95, 119, 97, 105, 116, 95, 110, 115, 44, 102, 117, 116, 101, 120, 95, 99, 111, 117, 110, 116, 10]);
}

/// The bytes of `epoch_ms,futex_count\n`.
pub open spec fn futex_wake_header() -> Seq<u8> {
    seq![101u8, 112, 111, 99, 104, 95, 109, 115, 44, 102, 117, 116, 101, 120, 95, 99, 111, 117, 110, 116, 10]
}

/// Appends `epoch_ms,futex_count\n`.
pub fn push_futex_wake_header(v: &mut Vec<u8>)
    ensures
        final(v)@ == old(v)@ + futex_wake_header(),
{
    append(v, &[101u8, 112, 111, 99, 104, 95, 109, 115, 44, 102, 117, 116, 101, 120, 95, 99, 111, 117, 110, 116, 10]);
}

/// The bytes of `/sockets/`.
pub open spec fn sockets_dir() -> Seq<u8> {
    seq![47u8, 115, 111, 99, 107, 101, 116, 115, 47]
}

/// Appends `/sockets/`.
pub fn push_sockets_dir(v: &mut Vec<u8>)
    ensures
        final(v)@ == old(v)@ + sockets_dir(),
{
    append(v, &[47u8, 115, 111, 99, 107, 101, 116, 115, 47]);
}

/// The bytes of `/streams/`.
pub open spec fn streams_dir() -> Seq<u8> {
    seq![47u8, 115, 116, 114, 101, 97, 109, 115, 47]
}

/// Appends `/streams/`.
pub fn push_streams_dir(v: &mut Vec<u8>)
    ensures
        final(v)@ == old(v)@ + streams_dir(),
{
    append(v, &[47u8, 115, 116, 114, 101, 97, 109, 115, 47]);
}

/// The bytes of `ipv4_`.
pub open spec fn ipv4_prefix() -> Seq<u8> {
    seq![105u8, 112, 118, 52, 95]
}

/// Appends `ipv4_`.
pub fn push_ipv4_prefix(v: &mut Vec<u8>)
    ensures
        final(v)@ == old(v)@ + ipv4_prefix(),
{
    append(v, &[105u8, 112, 118, 52, 95]);
}

/// The bytes of `ipv6_[`.
pub open spec fn ipv6_prefix() -> Seq<u8> {
    seq![105u8, 112, 118, 54, 95, 91]
}

/// Appends `ipv6_[`.
pub fn push_ipv6_prefix(v: &mut Vec<u8>)
    ensures
        final(v)@ == old(v)@ + ipv6_prefix(),
{
    append(v, &[105u8, 112, 118, 54, 95, 91]);
}

/// The bytes of `]:`.
pub open spec fn close_bracket_colon() -> Seq<u8> {
    seq![93u8, 58]
}

/// Appends `]:`.
pub fn push_close_bracket_colon(v: &mut Vec<u8>)
    ensures
        final(v)@ == old(v)@ + close_bracket_colon(),
{
    append(v, &[93u8, 58]);
}

/// The bytes of `_[`.
pub open spec fn underscore_bracket() -> Seq<u8> {
    seq![95u8, 91]
}

/// Appends `_[`.
pub fn push_underscore_bracket(v: &mut Vec<u8>)
    ensures
        final(v)@ == old(v)@ + underscore_bracket(),
{
    append(v, &[95u8, 91]);
}

/// The bytes of `unix_0x`.
pub open spec fn unix_prefix() -> Seq<u8> {
    seq![117u8, 110, 105, 120, 95, 48, 120]
}

/// Appends `unix_0x`.
pub fn push_unix_prefix(v: &mut Vec<u8>)
    ensures
        final(v)@ == old(v)@ + unix_prefix(),
{
    append(v, &[117u8, 110, 105, 120, 95, 48, 120]);
}

/// The bytes of `_0x`.
pub open spec fn underscore_0x() -> Seq<u8> {
    seq![95u8, 48, 120]
}

/// Appends `_0x`.
pub fn push_underscore_0x(v: &mut Vec<u8>)
    ensures
        final(v)@ == old(v)@ + underscore_0x(),
{
    append(v, &[95u8, 48, 120]);
}

/// The bytes of `_`.
pub open spec fn underscore() -> Seq<u8> {
    seq![95u8]
}

/// Appends `_`.
pub fn push_underscore(v: &mut Vec<u8>)
    ensures
        final(v)@ == old(v)@ + underscore(),
{
    append(v, &[95u8]);
}

/// The bytes of `:`.
pub open spec fn colon() -> Seq<u8> {
    seq![58u8]
}

/// Appends `:`.
pub fn push_colon(v: &mut Vec<u8>)
    ensures
        final(v)@ == old(v)@ + colon(),
{
    append(v, &[58u8]);
}

/// The bytes of `epoll_`.
pub open spec fn epoll_prefix() -> Seq<u8> {
    seq![101u8, 112, 111, 108, 108, 95]
}

/// Appends `epoll_`.
pub fn push_epoll_prefix(v: &mut Vec<u8>)
    ensures
        final(v)@ == old(v)@ + epoll_prefix(),
{
    append(v, &[101u8, 112, 111, 108, 108, 95]);
}

/// The bytes of `epoch_ms,socket_wait,count\n`.
pub open spec fn socket_header() -> Seq<u8> {
    seq![101u8, 112, 111, 99, 104, 95, 109, 115, 44, 115, 111, 99, 107, 101, 116, 95, 119, 97, 105, 116, 44, 99, 111, 117, 110, 116, 10]
}

/// Appends `epoch_ms,socket_wait,count\n`.
pub fn push_socket_header(v: &mut Vec<u8>)
    ensures
        final(v)@ == old(v)@ + socket_header(),
{
    append(v, &[101u8, 112, 111, 99, 104, 95, 109, 115, 44, 115, 111, 99, 107, 101, 116, 95, 119, 97, 105, 116, 44, 99, 111, 117, 110, 116, 10]);
}

/// The bytes of `epoch_ms,stream_wait,count\n`.
pub open spec fn stream_header() -> Seq<u8> {
    seq![101u8, 112, 111, 99, 104, 95, 109, 115, 44, 115, 116, 114, 101, 97, 109, 95, 119, 97, 105, 116, 44, 99, 111, 117, 110, 116, 10]
}

/// Appends `epoch_ms,stream_wait,count\n`.
pub fn push_stream_header(v: &mut Vec<u8>)
    ensures
        final(v)@ == old(v)@ + stream_header(),
{
    append(v, &[101u8, 112, 111, 99, 104, 95, 109, 115, 44, 115, 116, 114, 101, 97, 109, 95, 119, 97, 105, 116, 44, 99, 111, 117, 110, 116, 10]);
}

/// The bytes of `epoch_s,sector_cnt\n`.
pub open spec fn iowait_header() -> Seq<u8> {
    seq![101u8, 112, 111, 99, 104, 95, 115, 44, 115, 101, 99, 116, 111, 114, 95, 99, 110, 116, 10]
}

/// Appends `epoch_s,sector_cnt\n`.
pub fn push_iowait_header(v: &mut Vec<u8>)
    ensures
        final(v)@ == old(v)@ + iowait_header(),
{
    append(v, &[101u8, 112, 111, 99, 104, 95, 115, 44, 115, 101, 99, 116, 111, 114, 95, 99, 110, 116, 10]);
}

/// The bytes of `.`.
pub open spec fn dot() -> Seq<u8> {
    seq![46u8]
}

/// Appends `.`.
pub fn push_dot(v: &mut Vec<u8>)
    ensures
        final(v)@ == old(v)@ + dot(),
{
    append(v, &[46u8]);
}

} // verus!
