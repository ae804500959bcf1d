//! Calls into the operating system, and their raw replies.
use vstd::prelude::*;

use crate::addr::SockAddr;
use crate::error::OsError;

verus! {

/// A call that sets an option of a socket to `value`, of which the system is
/// given the `len` bytes in memory.
#[derive(Clone, Copy, Debug, PartialEq, Eq)]
pub struct SetSockOpt<T> {
    pub fd: i32,
    pub level: i32,
    pub name: i32,
    pub value: T,
    pub len: u32,
}

/// A call that the operating system has to be asked to make.
#[derive(Clone, Copy, Debug)]
pub enum Syscall {
    Socket { domain: i32, ty: i32, protocol: i32 },
    Bind { fd: i32, addr: SockAddr, addr_len: u32 },
    Connect { fd: i32, addr: SockAddr, addr_len: u32 },
    Listen { fd: i32, backlog: i32 },
    /// Takes a connection; the address of the peer is not asked for.
    Accept { fd: i32 },
    /// Takes a connection whose socket gets `flags`.
    Accept4 { fd: i32, flags: i32 },
    /// Sets an option to an integer.
    SetSockOpt(SetSockOpt<i32>),
    /// Reads an option that is an integer of `len` bytes.
    GetSockOpt { fd: i32, level: i32, name: i32, len: u32 },
    /// Makes a request to the driver; `arg` is passed by reference.
    Ioctl { fd: i32, request: u64, arg: Option<i32> },
    /// Closes the descriptor; a failure is worth a log line and nothing else.
    Close { fd: i32 },
}

/// What a call returned.
#[derive(Clone, Copy, Debug, PartialEq, Eq, Structural)]
pub struct Reply {
    /// Returned number; -1 tells of an error.
    pub ret: i32,
    /// Number of the last error, as it stood right after the call.
    pub errno: i32,
    /// What the call wrote to its result buffer; only reading an option has one.
    pub value: i32,
}

/// Number of bytes that a value of the type `T` takes in memory.
pub open spec fn len_of<T>() -> u32 {
    vstd::layout::size_of::<T>() as u32
}

/// Measures the type `T`.
fn measure<T>() -> (len: u32)
    ensures
        len == len_of::<T>(),
{
    #[verifier::truncate]
    (core::mem::size_of::<T>() as u32)
}

/// Turns the number `t` that a call returned into a result; `errno` is the
/// number of the last error.
pub fn cvt(t: i32, errno: i32) -> (result: Result<i32, OsError>)
    ensures
        result == if t == -1 {
            Err(OsError { code: errno })
        } else {
            Ok(t)
        },
{
    if t == -1 {
        Err(OsError { code: errno })
    } else {
        Ok(t)
    }
}

/// Takes the reply to a call of which only success or failure matters.
pub fn done(reply: &Reply) -> (result: Result<(), OsError>)
    ensures
        result == if reply.ret == -1 {
            Err(OsError { code: reply.errno })
        } else {
            Ok(())
        },
{
    match cvt(reply.ret, reply.errno) {
        Ok(_) => Ok(()),
        Err(error) => Err(error),
    }
}

/// The call that sets an option of a socket. Its reply is taken by
/// [`SetSockOpt::finish`].
pub fn setsockopt<T>(sock: i32, level: i32, option_name: i32, option_value: T) -> (call: SetSockOpt<
    T,
>)
    ensures
        call == (SetSockOpt {
            fd: sock,
            level,
            name: option_name,
            value: option_value,
            len: len_of::<T>(),
        }),
{
    SetSockOpt { fd: sock, level, name: option_name, value: option_value, len: measure::<T>() }
}

impl<T> SetSockOpt<T> {
    /// Takes the reply to the call.
    pub fn finish(&self, reply: &Reply) -> (result: Result<(), OsError>)
        ensures
            result == if reply.ret == -1 {
                Err(OsError { code: reply.errno })
            } else {
                Ok(())
            },
    {
        done(reply)
    }
}

/// An integer option takes four bytes.
pub proof fn law_int_option_len()
    ensures
        len_of::<i32>() == 4,
{
    broadcast use vstd::layout::layout_of_primitives;

}

/// The call that reads an integer option of a socket.
pub fn getsockopt(sock: i32, level: i32, option_name: i32) -> (call: Syscall)
    ensures
        call == (Syscall::GetSockOpt { fd: sock, level, name: option_name, len: len_of::<i32>() }),
{
    Syscall::GetSockOpt { fd: sock, level, name: option_name, len: measure::<i32>() }
}

/// An open descriptor that is closed, unless its owner takes it over.
#[derive(Debug)]
pub struct AutoCloseFd(i32);

impl View for AutoCloseFd {
    type V = i32;

    closed spec fn view(&self) -> i32 {
        self.0
    }
}

impl AutoCloseFd {
    pub fn new(fd: i32) -> (owned: AutoCloseFd)
        ensures
            owned@ == fd,
    {
        AutoCloseFd(fd)
    }

    pub fn as_raw_fd(&self) -> (fd: i32)
        ensures
            fd == self@,
    {
        self.0
    }

    /// Gives the descriptor away: it is no longer closed.
    pub fn into_raw_fd(self) -> (fd: i32)
        ensures
            fd == self@,
    {
        self.0
    }

    /// Gives the descriptor up: it has to be closed now.
    pub fn close(self) -> (call: Syscall)
        ensures
            call == (Syscall::Close { fd: self@ }),
    {
        Syscall::Close { fd: self.0 }
    }
}

/// Only -1 tells of an error, whatever the number of the last error is.
pub proof fn law_replies(
    reply: Reply,
    converted: Result<i32, OsError>,
    result: Result<(), OsError>,
)
    requires
        call_ensures(cvt, (reply.ret, reply.errno), converted),
        call_ensures(done, (&reply,), result),
    ensures
        reply.ret != -1 ==> converted == Ok::<i32, OsError>(reply.ret) && result == Ok::<
            (),
            OsError,
        >(()),
        reply.ret == -1 ==> converted == Err::<i32, OsError>(OsError { code: reply.errno })
            && result == Err::<(), OsError>(OsError { code: reply.errno }),
{
}

/// An option is set on the socket, at the level, under the name and to the value
/// that were given, and the system is told the size of that value.
pub proof fn law_setsockopt<T>(
    sock: i32,
    level: i32,
    option_name: i32,
    option_value: T,
    call: SetSockOpt<T>,
    reply: Reply,
    result: Result<(), OsError>,
)
    requires
        call_ensures(setsockopt::<T>, (sock, level, option_name, option_value), call),
        call_ensures(SetSockOpt::<T>::finish, (&call, &reply), result),
        vstd::layout::size_of::<T>() <= u32::MAX,
    ensures
        call.fd == sock,
        call.level == level,
        call.name == option_name,
        call.value == option_value,
        call.len == vstd::layout::size_of::<T>(),
        reply.ret != -1 ==> result == Ok::<(), OsError>(()),
        reply.ret == -1 ==> result == Err::<(), OsError>(OsError { code: reply.errno }),
{
}

/// An option is read from the socket, at the level and under the name that were
/// given, into four bytes.
pub proof fn law_getsockopt(sock: i32, level: i32, option_name: i32, call: Syscall)
    requires
        call_ensures(getsockopt, (sock, level, option_name), call),
    ensures
        call == (Syscall::GetSockOpt { fd: sock, level, name: option_name, len: 4 }),
{
    law_int_option_len();
}

/// A descriptor that is owned stays the one that was taken over: it is the one to
/// use, the one that is given away, and the one that is closed.
pub proof fn law_owned_fd(fd: i32, owned: AutoCloseFd, raw: i32, given: i32, close: Syscall)
    requires
        call_ensures(AutoCloseFd::new, (fd,), owned),
        call_ensures(AutoCloseFd::as_raw_fd, (&owned,), raw),
        call_ensures(AutoCloseFd::into_raw_fd, (owned,), given),
        call_ensures(AutoCloseFd::close, (owned,), close),
    ensures
        owned@ == fd,
        raw == fd,
        given == fd,
        close == (Syscall::Close { fd }),
{
}

} // verus!
