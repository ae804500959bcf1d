//! The numbers by which the socket interface of the operating system is driven.
use vstd::prelude::*;

verus! {

/// What Linux and macOS do differently when a socket is made non-blocking.
///
/// Each variant holds numbers that only its own system defines.
#[derive(Clone, Copy, Debug, PartialEq, Eq, Structural)]
pub enum Os {
    /// A socket is created non-blocking and close-on-exec in one call.
    Linux { sock_cloexec: i32, sock_nonblock: i32 },
    /// A socket is created blocking, and set up by further calls.
    MacOs { fioclex: u64, so_nosigpipe: i32, fionbio: u64 },
}

/// The numbers that name address families, socket types, options and errors.
#[derive(Clone, Copy, Debug, PartialEq, Eq, Structural)]
pub struct Platform {
    pub os: Os,
    pub af_unspec: i32,
    pub af_inet: i32,
    pub af_inet6: i32,
    pub sock_stream: i32,
    pub sol_socket: i32,
    pub so_reuseaddr: i32,
    pub so_error: i32,
    pub somaxconn: i32,
    pub einprogress: i32,
    pub sockaddr_in_len: u32,
    pub sockaddr_in6_len: u32,
}

/// `libc::AF_UNSPEC`: zero on every Linux and on macOS.
#[verifier::external_body]
fn af_unspec() -> (n: i32)
    ensures
        n == 0,
{
    libc::AF_UNSPEC
}

/// `libc::AF_INET`: 2 on every Linux and on macOS.
#[verifier::external_body]
fn af_inet() -> (n: i32)
    ensures
        n == 2,
{
    libc::AF_INET
}

/// `libc::AF_INET6`: 10 on Linux, 30 on macOS.
#[verifier::external_body]
fn af_inet6() -> (n: i32)
    ensures
        n == 10 || n == 30,
{
    libc::AF_INET6
}

/// `libc::SOCK_STREAM`: 1, except on Linux for MIPS, where it is 2.
#[verifier::external_body]
fn sock_stream() -> (n: i32)
    ensures
        n == 1 || n == 2,
{
    libc::SOCK_STREAM
}

/// `libc::SOL_SOCKET`: 1 on Linux, and 0xffff on macOS and on Linux for MIPS
/// and SPARC.
#[verifier::external_body]
fn sol_socket() -> (n: i32)
    ensures
        n == 1 || n == 0xffff,
{
    libc::SOL_SOCKET
}

/// `libc::SO_REUSEADDR`: 2 on Linux, and 4 on macOS and on Linux for MIPS and
/// SPARC.
#[verifier::external_body]
fn so_reuseaddr() -> (n: i32)
    ensures
        n == 2 || n == 4,
{
    libc::SO_REUSEADDR
}

/// `libc::SO_ERROR`: 4 on Linux, and 0x1007 on macOS and on Linux for MIPS and
/// SPARC.
#[verifier::external_body]
fn so_error() -> (n: i32)
    ensures
        n == 4 || n == 0x1007,
{
    libc::SO_ERROR
}

/// `libc::SOMAXCONN`: 4096 with the GNU C library, 128 with the other C
/// libraries of Linux and on macOS.
#[verifier::external_body]
fn somaxconn() -> (n: i32)
    ensures
        n == 128 || n == 4096,
{
    libc::SOMAXCONN
}

/// `libc::EINPROGRESS`: 115 on Linux (150 for MIPS, 36 for SPARC), 36 on macOS.
#[verifier::external_body]
fn einprogress() -> (n: i32)
    ensures
        n == 115 || n == 150 || n == 36,
{
    libc::EINPROGRESS
}

/// `std::mem::size_of` for `libc::sockaddr_in`, whose fields fill 16 bytes on
/// Linux and on macOS.
#[verifier::external_body]
fn sockaddr_in_len() -> (n: usize)
    ensures
        n == 16,
{
    std::mem::size_of::<libc::sockaddr_in>()
}

/// `std::mem::size_of` for `libc::sockaddr_in6`, whose fields fill 28 bytes on
/// Linux and on macOS.
#[verifier::external_body]
fn sockaddr_in6_len() -> (n: usize)
    ensures
        n == 28,
{
    std::mem::size_of::<libc::sockaddr_in6>()
}

impl Platform {
    /// The two address families that the listener serves have different
    /// numbers.
    pub open spec fn wf(self) -> bool {
        self.af_inet != self.af_inet6
    }

    /// Each number is the one that the C library defines under its name, or the
    /// size of its type, for the system that this code is compiled for.
    pub closed spec fn is_native(self) -> bool {
        &&& call_ensures(af_unspec, (), self.af_unspec)
        &&& call_ensures(af_inet, (), self.af_inet)
        &&& call_ensures(af_inet6, (), self.af_inet6)
        &&& call_ensures(sock_stream, (), self.sock_stream)
        &&& call_ensures(sol_socket, (), self.sol_socket)
        &&& call_ensures(so_reuseaddr, (), self.so_reuseaddr)
        &&& call_ensures(so_error, (), self.so_error)
        &&& call_ensures(somaxconn, (), self.somaxconn)
        &&& call_ensures(einprogress, (), self.einprogress)
        &&& call_ensures(sockaddr_in_len, (), self.sockaddr_in_len as usize)
        &&& call_ensures(sockaddr_in6_len, (), self.sockaddr_in6_len as usize)
    }

    /// The numbers of the system that this code is compiled for; those that
    /// only one system defines come with `os`.
    pub fn new(os: Os) -> (p: Platform)
        ensures
            p.wf(),
            p.is_native(),
            p.os == os,
            p.af_unspec == 0,
            p.af_inet == 2,
            p.af_inet6 == 10 || p.af_inet6 == 30,
            p.sock_stream == 1 || p.sock_stream == 2,
            p.sol_socket == 1 || p.sol_socket == 0xffff,
            p.so_reuseaddr == 2 || p.so_reuseaddr == 4,
            p.so_error == 4 || p.so_error == 0x1007,
            p.somaxconn == 128 || p.somaxconn == 4096,
            p.einprogress == 115 || p.einprogress == 150 || p.einprogress == 36,
            p.sockaddr_in_len == 16,
            p.sockaddr_in6_len == 28,
    {
        Platform {
            os,
            af_unspec: af_unspec(),
            af_inet: af_inet(),
            af_inet6: af_inet6(),
            sock_stream: sock_stream(),
            sol_socket: sol_socket(),
            so_reuseaddr: so_reuseaddr(),
            so_error: so_error(),
            somaxconn: somaxconn(),
            einprogress: einprogress(),
            sockaddr_in_len: sockaddr_in_len() as u32,
            sockaddr_in6_len: sockaddr_in6_len() as u32,
        }
    }
}

/// Every number is the one that the C library gives under its own name, the system
/// is the one that was named, and the sizes are those of the two kinds of address.
proof fn law_native_numbers(os: Os, p: Platform)
    requires
        call_ensures(Platform::new, (os,), p),
    ensures
        p.os == os,
        call_ensures(af_unspec, (), p.af_unspec),
        call_ensures(af_inet, (), p.af_inet),
        call_ensures(af_inet6, (), p.af_inet6),
        call_ensures(sock_stream, (), p.sock_stream),
        call_ensures(sol_socket, (), p.sol_socket),
        call_ensures(so_reuseaddr, (), p.so_reuseaddr),
        call_ensures(so_error, (), p.so_error),
        call_ensures(somaxconn, (), p.somaxconn),
        call_ensures(einprogress, (), p.einprogress),
        call_ensures(sockaddr_in_len, (), p.sockaddr_in_len as usize),
        call_ensures(sockaddr_in6_len, (), p.sockaddr_in6_len as usize),
        p.sockaddr_in_len == 16,
        p.sockaddr_in6_len == 28,
{
}

} // verus!
