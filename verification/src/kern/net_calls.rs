//! The socket system calls: the endpoint a connection goes to, the choice
//! of the socket and buffer, and the status for what the network stack
//! answered.

use vstd::prelude::*;

verus! {

use crate::kern::io_calls::{queued, current, user_range, check_user_range};
use crate::kern::scheduler::Scheduler;
use crate::kern::syscall::{with_status, with_value_status, set_status, set_value_ok, sock_lookup, socket_of};
use crate::kern::traps::TrapFrame;
use crate::kernel_api::{OsError, os_error_code};
use smoltcp::wire::{IpAddress, IpEndpoint};
use smoltcp::Error as StackError;

/// The network stack's error type.
#[verifier::external_type_specification]
#[verifier::external_body]
pub struct ExNetError(StackError);

/// The network stack's endpoint type: an address and a port.
#[verifier::external_type_specification]
#[verifier::external_body]
pub struct ExIpEndpoint(IpEndpoint);

/// The errors of the network stack that the kernel tells apart.
#[derive(Clone, Copy, Debug, PartialEq, Eq)]
pub enum NetErrorKind {
    /// The operation is not permitted in the socket's state.
    Illegal,
    /// The remote endpoint cannot be addressed.
    Unaddressable,
    /// Any other error.
    Other,
}

/// Which of the kernel's kinds a network-stack error is.
pub uninterp spec fn net_error_kind_of(e: StackError) -> NetErrorKind;

/// The endpoint with IPv4 address `a.b.c.d` and port `port`.
pub uninterp spec fn endpoint_of(a: u8, b: u8, c: u8, d: u8, port: u16) -> IpEndpoint;

/// Tells the variants of `smoltcp::Error` apart: `Illegal` and
/// `Unaddressable` are their own kinds, every other variant is `Other`.
#[verifier::external_body]
fn net_error_kind(e: &StackError) -> (r: NetErrorKind)
    ensures
        r == net_error_kind_of(*e),
{
    match e {
        StackError::Illegal => NetErrorKind::Illegal,
        StackError::Unaddressable => NetErrorKind::Unaddressable,
        _ => NetErrorKind::Other,
    }
}

/// Calls `IpEndpoint::new(IpAddress::v4(a, b, c, d), port)`, which builds
/// the endpoint from the address's octets and the port.
#[verifier::external_body]
fn make_endpoint(a: u8, b: u8, c: u8, d: u8, port: u16) -> (r: IpEndpoint)
    ensures
        r == endpoint_of(a, b, c, d, port),
{
    IpEndpoint::new(IpAddress::v4(a, b, c, d), port)
}

/// The status of a failed `connect` or `listen`.
pub open spec fn attach_error_status(k: NetErrorKind) -> OsError {
    match k {
        NetErrorKind::Illegal => OsError::IllegalSocketOperation,
        NetErrorKind::Unaddressable => OsError::BadAddress,
        NetErrorKind::Other => OsError::Unknown,
    }
}

/// The status of a failed `send` or `recv`.
pub open spec fn transfer_error_status(k: NetErrorKind) -> OsError {
    match k {
        NetErrorKind::Illegal => OsError::IllegalSocketOperation,
        _ => OsError::Unknown,
    }
}

/// The status reported for a failed `connect` or `listen` of kind `k`.
pub fn attach_error(k: NetErrorKind) -> (r: OsError)
    ensures
        r == attach_error_status(k),
{
    match k {
        NetErrorKind::Illegal => OsError::IllegalSocketOperation,
        NetErrorKind::Unaddressable => OsError::BadAddress,
        NetErrorKind::Other => OsError::Unknown,
    }
}

/// The status reported for a failed `send` or `recv` of kind `k`.
pub fn transfer_error(k: NetErrorKind) -> (r: OsError)
    ensures
        r == transfer_error_status(k),
{
    match k {
        NetErrorKind::Illegal => OsError::IllegalSocketOperation,
        _ => OsError::Unknown,
    }
}

/// The octets of a 32-bit IPv4 address, most significant first.
pub open spec fn ip_octets(ip: u32) -> (u8, u8, u8, u8) {
    (((ip >> 24) & 0xff) as u8, ((ip >> 16) & 0xff) as u8, ((ip >> 8) & 0xff) as u8, (ip & 0xff) as u8)
}

/// The remote endpoint of `connect`: the address is the low 32 bits of the
/// address register, in big-endian order, and the port the low 16 bits of
/// the port register.
pub fn connect_endpoint(ip_reg: u64, port_reg: u64) -> (r: IpEndpoint)
    ensures
        ({
            let (a, b, c, d) = ip_octets(ip_reg as u32);
            r == endpoint_of(a, b, c, d, port_reg as u16)
        }),
{
    let ip: u32 = ip_reg as u32;
    let port: u16 = port_reg as u16;
    let a: u8 = ((ip >> 24) & 0xff) as u8;
    let b: u8 = ((ip >> 16) & 0xff) as u8;
    let c: u8 = ((ip >> 8) & 0xff) as u8;
    let d: u8 = (ip & 0xff) as u8;
    make_endpoint(a, b, c, d, port)
}

/// Sets the status of a finished `connect` or `listen`.
pub fn sys_attach_finish(result: Result<(), StackError>, tf: &mut TrapFrame)
    ensures
        match result {
            Ok(()) => with_status(*old(tf), *final(tf), 1),
            Err(e) => with_status(*old(tf), *final(tf), os_error_code(attach_error_status(net_error_kind_of(e)))),
        },
{
    match result {
        Ok(()) => set_status(tf, OsError::Success),
        Err(e) => {
            let k = net_error_kind(&e);
            set_status(tf, attach_error(k));
        },
    }
}

/// Sets the registers of a finished `send` or `recv`: the number of bytes
/// moved, or the error's status.
pub fn sys_transfer_finish(result: Result<usize, StackError>, tf: &mut TrapFrame)
    ensures
        match result {
            Ok(n) => with_value_status(*old(tf), *final(tf), n as u64, 1),
            Err(e) => with_status(*old(tf), *final(tf), os_error_code(transfer_error_status(net_error_kind_of(e)))),
        },
{
    match result {
        Ok(n) => set_value_ok(tf, n as u64),
        Err(e) => {
            let k = net_error_kind(&e);
            set_status(tf, transfer_error(k));
        },
    }
}

/// A local port for `connect` or `listen`: without one (none free, or the
/// port already taken) the status is `NoEntry`.
pub fn claim_port(port: Option<u16>, tf: &mut TrapFrame) -> (r: Option<u16>)
    ensures
        r == port,
        port is Some ==> *final(tf) == *old(tf),
        port is None ==> with_status(*old(tf), *final(tf), 10),
{
    match port {
        Some(p) => Some(p),
        None => {
            set_status(tf, OsError::NoEntry);
            None
        },
    }
}

/// `send`/`recv(sock, va, len)`: an empty buffer moves nothing; a buffer
/// outside user space is `BadAddress`; otherwise the socket behind handle
/// `sock`, or `InvalidSocket`.
///
/// Panics (excluded by the precondition) if the socket is looked up and the calling
/// process is not queued.
pub fn sys_transfer_target(scheduler: &Scheduler, sock: u64, va: u64, len: u64, tf: &mut TrapFrame) -> (r: Option<u64>)
    requires
        len != 0 && user_range(va, len) ==> queued(scheduler@, old(tf).tpidr),
    ensures
        len == 0 ==> r is None && with_value_status(*old(tf), *final(tf), 0, 1),
        len != 0 && !user_range(va, len) ==> r is None && with_status(*old(tf), *final(tf), 50),
        len != 0 && user_range(va, len) ==> match socket_of(current(scheduler@, old(tf).tpidr).handles@, sock) {
            Ok(s) => r == Some(s) && *final(tf) == *old(tf),
            Err(_) => r is None && with_status(*old(tf), *final(tf), 200),
        },
{
    if len == 0 {
        set_value_ok(tf, 0);
        return None;
    }
    if !check_user_range(va, len, tf) {
        return None;
    }
    match sock_lookup(scheduler, sock, tf) {
        Ok(s) => Some(s),
        Err(_) => None,
    }
}

} // verus!
