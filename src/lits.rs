//! The literal words of the tracer's wire format: map names, event tags, socket
//! families and file-system types.
use vstd::prelude::*;

use crate::text::bytes_eq;

verus! {

/// The bytes of `=> start`.
pub open spec fn lit_marker_start() -> Seq<u8> {
    seq![61u8, 62, 32, 115, 116, 97, 114, 116]
}

/// Whether `t` is exactly `=> start`.
pub fn is_marker_start(t: &[u8]) -> (r: bool)
    ensures
        r == (t@ == lit_marker_start()),
{
    bytes_eq(t, &[61u8, 62, 32, 115, 116, 97, 114, 116])
}

/// The bytes of `=> end`.
pub open spec fn lit_marker_end() -> Seq<u8> {
    seq![61u8, 62, 32, 101, 110, 100]
}

/// Whether `t` is exactly `=> end`.
pub fn is_marker_end(t: &[u8]) -> (r: bool)
    ensures
        r == (t@ == lit_marker_end()),
{
    bytes_eq(t, &[61u8, 62, 32, 101, 110, 100])
}

/// The bytes of `wait_elapsed`.
pub open spec fn lit_wait_elapsed() -> Seq<u8> {
    seq![119u8, 97, 105, 116, 95, 101, 108, 97, 112, 115, 101, 100]
}

/// Whether `t` is exactly `wait_elapsed`.
pub fn is_wait_elapsed(t: &[u8]) -> (r: bool)
    ensures
        r == (t@ == lit_wait_elapsed()),
{
    bytes_eq(t, &[119u8, 97, 105, 116, 95, 101, 108, 97, 112, 115, 101, 100])
}

/// The bytes of `wait_pending`.
pub open spec fn lit_wait_pending() -> Seq<u8> {
    seq![119u8, 97, 105, 116, 95, 112, 101, 110, 100, 105, 110, 103]
}

/// Whether `t` is exactly `wait_pending`.
pub fn is_wait_pending(t: &[u8]) -> (r: bool)
    ensures
        r == (t@ == lit_wait_pending()),
{
    bytes_eq(t, &[119u8, 97, 105, 116, 95, 112, 101, 110, 100, 105, 110, 103])
}

/// The bytes of `wake`.
pub open spec fn lit_wake() -> Seq<u8> {
    seq![119u8, 97, 107, 101]
}

/// Whether `t` is exactly `wake`.
pub fn is_wake(t: &[u8]) -> (r: bool)
    ensures
        r == (t@ == lit_wake()),
{
    bytes_eq(t, &[119u8, 97, 107, 101])
}

/// The bytes of `completed`.
pub open spec fn lit_completed() -> Seq<u8> {
    seq![99u8, 111, 109, 112, 108, 101, 116, 101, 100]
}

/// Whether `t` is exactly `completed`.
pub fn is_completed(t: &[u8]) -> (r: bool)
    ensures
        r == (t@ == lit_completed()),
{
    bytes_eq(t, &[99u8, 111, 109, 112, 108, 101, 116, 101, 100])
}

/// The bytes of `pending`.
pub open spec fn lit_pending() -> Seq<u8> {
    seq![112u8, 101, 110, 100, 105, 110, 103]
}

/// Whether `t` is exactly `pending`.
pub fn is_pending(t: &[u8]) -> (r: bool)
    ensures
        r == (t@ == lit_pending()),
{
    bytes_eq(t, &[112u8, 101, 110, 100, 105, 110, 103])
}

/// The bytes of `inode_map`.
pub open spec fn lit_inode_map() -> Seq<u8> {
    seq![105u8, 110, 111, 100, 101, 95, 109, 97, 112]
}

/// Whether `t` is exactly `inode_map`.
pub fn is_inode_map(t: &[u8]) -> (r: bool)
    ensures
        r == (t@ == lit_inode_map()),
{
    bytes_eq(t, &[105u8, 110, 111, 100, 101, 95, 109, 97, 112])
}

/// The bytes of `inode_pending`.
pub open spec fn lit_inode_pending() -> Seq<u8> {
    seq![105u8, 110, 111, 100, 101, 95, 112, 101, 110, 100, 105, 110, 103]
}

/// Whether `t` is exactly `inode_pending`.
pub fn is_inode_pending(t: &[u8]) -> (r: bool)
    ensures
        r == (t@ == lit_inode_pending()),
{
    bytes_eq(t, &[105u8, 110, 111, 100, 101, 95, 112, 101, 110, 100, 105, 110, 103])
}

/// The bytes of `epoll_map`.
pub open spec fn lit_epoll_map() -> Seq<u8> {
    seq![101u8, 112, 111, 108, 108, 95, 109, 97, 112]
}

/// Whether `t` is exactly `epoll_map`.
pub fn is_epoll_map(t: &[u8]) -> (r: bool)
    ensures
        r == (t@ == lit_epoll_map()),
{
    bytes_eq(t, &[101u8, 112, 111, 108, 108, 95, 109, 97, 112])
}

/// The bytes of `epoll_pending`.
pub open spec fn lit_epoll_pending() -> Seq<u8> {
    seq![101u8, 112, 111, 108, 108, 95, 112, 101, 110, 100, 105, 110, 103]
}

/// Whether `t` is exactly `epoll_pending`.
pub fn is_epoll_pending(t: &[u8]) -> (r: bool)
    ensures
        r == (t@ == lit_epoll_pending()),
{
    bytes_eq(t, &[101u8, 112, 111, 108, 108, 95, 112, 101, 110, 100, 105, 110, 103])
}

/// The bytes of `UnhandledOpcode`.
pub open spec fn lit_unhandled_opcode() -> Seq<u8> {
    seq![85u8, 110, 104, 97, 110, 100, 108, 101, 100, 79, 112, 99, 111, 100, 101]
}

/// Whether `t` is exactly `UnhandledOpcode`.
pub fn is_unhandled_opcode(t: &[u8]) -> (r: bool)
    ensures
        r == (t@ == lit_unhandled_opcode()),
{
    bytes_eq(t, &[85u8, 110, 104, 97, 110, 100, 108, 101, 100, 79, 112, 99, 111, 100, 101])
}

/// The bytes of `NewProcess`.
pub open spec fn lit_new_process() -> Seq<u8> {
    seq![78u8, 101, 119, 80, 114, 111, 99, 101, 115, 115]
}

/// Whether `t` is exactly `NewProcess`.
pub fn is_new_process(t: &[u8]) -> (r: bool)
    ensures
        r == (t@ == lit_new_process()),
{
    bytes_eq(t, &[78u8, 101, 119, 80, 114, 111, 99, 101, 115, 115])
}

/// The bytes of `SampleInstant`.
pub open spec fn lit_sample_instant() -> Seq<u8> {
    seq![83u8, 97, 109, 112, 108, 101, 73, 110, 115, 116, 97, 110, 116]
}

/// Whether `t` is exactly `SampleInstant`.
pub fn is_sample_instant(t: &[u8]) -> (r: bool)
    ensures
        r == (t@ == lit_sample_instant()),
{
    bytes_eq(t, &[83u8, 97, 109, 112, 108, 101, 73, 110, 115, 116, 97, 110, 116])
}

/// The bytes of `NewThread`.
pub open spec fn lit_new_thread() -> Seq<u8> {
    seq![78u8, 101, 119, 84, 104, 114, 101, 97, 100]
}

/// Whether `t` is exactly `NewThread`.
pub fn is_new_thread(t: &[u8]) -> (r: bool)
    ensures
        r == (t@ == lit_new_thread()),
{
    bytes_eq(t, &[78u8, 101, 119, 84, 104, 114, 101, 97, 100])
}

/// The bytes of `RemoveProcess`.
pub open spec fn lit_remove_process() -> Seq<u8> {
    seq![82u8, 101, 109, 111, 118, 101, 80, 114, 111, 99, 101, 115, 115]
}

/// Whether `t` is exactly `RemoveProcess`.
pub fn is_remove_process(t: &[u8]) -> (r: bool)
    ensures
        r == (t@ == lit_remove_process()),
{
    bytes_eq(t, &[82u8, 101, 109, 111, 118, 101, 80, 114, 111, 99, 101, 115, 115])
}

/// The bytes of `AcceptStart`.
pub open spec fn lit_accept_start() -> Seq<u8> {
    seq![65u8, 99, 99, 101, 112, 116, 83, 116, 97, 114, 116]
}

/// Whether `t` is exactly `AcceptStart`.
pub fn is_accept_start(t: &[u8]) -> (r: bool)
    ensures
        r == (t@ == lit_accept_start()),
{
    bytes_eq(t, &[65u8, 99, 99, 101, 112, 116, 83, 116, 97, 114, 116])
}

/// The bytes of `AcceptEnd`.
pub open spec fn lit_accept_end() -> Seq<u8> {
    seq![65u8, 99, 99, 101, 112, 116, 69, 110, 100]
}

/// Whether `t` is exactly `AcceptEnd`.
pub fn is_accept_end(t: &[u8]) -> (r: bool)
    ensures
        r == (t@ == lit_accept_end()),
{
    bytes_eq(t, &[65u8, 99, 99, 101, 112, 116, 69, 110, 100])
}

/// The bytes of `ConnectStart`.
pub open spec fn lit_connect_start() -> Seq<u8> {
    seq![67u8, 111, 110, 110, 101, 99, 116, 83, 116, 97, 114, 116]
}

/// Whether `t` is exactly `ConnectStart`.
pub fn is_connect_start(t: &[u8]) -> (r: bool)
    ensures
        r == (t@ == lit_connect_start()),
{
    bytes_eq(t, &[67u8, 111, 110, 110, 101, 99, 116, 83, 116, 97, 114, 116])
}

/// The bytes of `ConnectEnd`.
pub open spec fn lit_connect_end() -> Seq<u8> {
    seq![67u8, 111, 110, 110, 101, 99, 116, 69, 110, 100]
}

/// Whether `t` is exactly `ConnectEnd`.
pub fn is_connect_end(t: &[u8]) -> (r: bool)
    ensures
        r == (t@ == lit_connect_end()),
{
    bytes_eq(t, &[67u8, 111, 110, 110, 101, 99, 116, 69, 110, 100])
}

/// The bytes of `EpollAdd`.
pub open spec fn lit_epoll_add() -> Seq<u8> {
    seq![69u8, 112, 111, 108, 108, 65, 100, 100]
}

/// Whether `t` is exactly `EpollAdd`.
pub fn is_epoll_add(t: &[u8]) -> (r: bool)
    ensures
        r == (t@ == lit_epoll_add()),
{
    bytes_eq(t, &[69u8, 112, 111, 108, 108, 65, 100, 100])
}

/// The bytes of `EpollRemove`.
pub open spec fn lit_epoll_remove() -> Seq<u8> {
    seq![69u8, 112, 111, 108, 108, 82, 101, 109, 111, 118, 101]
}

/// Whether `t` is exactly `EpollRemove`.
pub fn is_epoll_remove(t: &[u8]) -> (r: bool)
    ensures
        r == (t@ == lit_epoll_remove()),
{
    bytes_eq(t, &[69u8, 112, 111, 108, 108, 82, 101, 109, 111, 118, 101])
}

/// The bytes of `EpiPoll`.
pub open spec fn lit_epi_poll() -> Seq<u8> {
    seq![69u8, 112, 105, 80, 111, 108, 108]
}

/// Whether `t` is exactly `EpiPoll`.
pub fn is_epi_poll(t: &[u8]) -> (r: bool)
    ensures
        r == (t@ == lit_epi_poll()),
{
    bytes_eq(t, &[69u8, 112, 105, 80, 111, 108, 108])
}

/// The bytes of `NewSocketMap`.
pub open spec fn lit_new_socket_map() -> Seq<u8> {
    seq![78u8, 101, 119, 83, 111, 99, 107, 101, 116, 77, 97, 112]
}

/// Whether `t` is exactly `NewSocketMap`.
pub fn is_new_socket_map(t: &[u8]) -> (r: bool)
    ensures
        r == (t@ == lit_new_socket_map()),
{
    bytes_eq(t, &[78u8, 101, 119, 83, 111, 99, 107, 101, 116, 77, 97, 112])
}

/// The bytes of `UnhandledFileMode`.
pub open spec fn lit_unhandled_file_mode() -> Seq<u8> {
    seq![85u8, 110, 104, 97, 110, 100, 108, 101, 100, 70, 105, 108, 101, 77, 111, 100, 101]
}

/// Whether `t` is exactly `UnhandledFileMode`.
pub fn is_unhandled_file_mode(t: &[u8]) -> (r: bool)
    ensures
        r == (t@ == lit_unhandled_file_mode()),
{
    bytes_eq(t, &[85u8, 110, 104, 97, 110, 100, 108, 101, 100, 70, 105, 108, 101, 77, 111, 100, 101])
}

/// The bytes of `UnhandledSockFam`.
pub open spec fn lit_unhandled_sock_fam() -> Seq<u8> {
    seq![85u8, 110, 104, 97, 110, 100, 108, 101, 100, 83, 111, 99, 107, 70, 97, 109]
}

/// Whether `t` is exactly `UnhandledSockFam`.
pub fn is_unhandled_sock_fam(t: &[u8]) -> (r: bool)
    ensures
        r == (t@ == lit_unhandled_sock_fam()),
{
    bytes_eq(t, &[85u8, 110, 104, 97, 110, 100, 108, 101, 100, 83, 111, 99, 107, 70, 97, 109])
}

/// The bytes of `AF_INET`.
pub open spec fn lit_af_inet() -> Seq<u8> {
    seq![65u8, 70, 95, 73, 78, 69, 84]
}

/// Whether `t` is exactly `AF_INET`.
pub fn is_af_inet(t: &[u8]) -> (r: bool)
    ensures
        r == (t@ == lit_af_inet()),
{
    bytes_eq(t, &[65u8, 70, 95, 73, 78, 69, 84])
}

/// The bytes of `AF_INET6`.
pub open spec fn lit_af_inet6() -> Seq<u8> {
    seq![65u8, 70, 95, 73, 78, 69, 84, 54]
}

/// Whether `t` is exactly `AF_INET6`.
pub fn is_af_inet6(t: &[u8]) -> (r: bool)
    ensures
        r == (t@ == lit_af_inet6()),
{
    bytes_eq(t, &[65u8, 70, 95, 73, 78, 69, 84, 54])
}

/// The bytes of `AF_UNIX`.
pub open spec fn lit_af_unix() -> Seq<u8> {
    seq![65u8, 70, 95, 85, 78, 73, 88]
}

/// Whether `t` is exactly `AF_UNIX`.
pub fn is_af_unix(t: &[u8]) -> (r: bool)
    ensures
        r == (t@ == lit_af_unix()),
{
    bytes_eq(t, &[65u8, 70, 95, 85, 78, 73, 88])
}

/// The bytes of `anon_inodefs`.
pub open spec fn lit_anon_inodefs() -> Seq<u8> {
    seq![97u8, 110, 111, 110, 95, 105, 110, 111, 100, 101, 102, 115]
}

/// Whether `t` is exactly `anon_inodefs`.
pub fn is_anon_inodefs(t: &[u8]) -> (r: bool)
    ensures
        r == (t@ == lit_anon_inodefs()),
{
    bytes_eq(t, &[97u8, 110, 111, 110, 95, 105, 110, 111, 100, 101, 102, 115])
}

/// The bytes of `sockfs`.
pub open spec fn lit_sockfs() -> Seq<u8> {
    seq![115u8, 111, 99, 107, 102, 115]
}

/// Whether `t` is exactly `sockfs`.
pub fn is_sockfs(t: &[u8]) -> (r: bool)
    ensures
        r == (t@ == lit_sockfs()),
{
    bytes_eq(t, &[115u8, 111, 99, 107, 102, 115])
}

/// The bytes of `epoll`.
pub open spec fn lit_epoll() -> Seq<u8> {
    seq![101u8, 112, 111, 108, 108]
}

/// Whether `t` is exactly `epoll`.
pub fn is_epoll(t: &[u8]) -> (r: bool)
    ensures
        r == (t@ == lit_epoll()),
{
    bytes_eq(t, &[101u8, 112, 111, 108, 108])
}

} // verus!
