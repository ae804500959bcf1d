//! The descriptor that a listener or a connection lives on.
use vstd::prelude::*;

use crate::error::{Error, ErrorView};
use crate::syscall::AutoCloseFd;

verus! {

/// A stream socket.
#[derive(Debug, PartialEq, Eq)]
pub struct TcpStream {
    /// The descriptor; `None` once it is closed.
    pub fd: Option<i32>,
}

impl TcpStream {
    /// Takes the descriptor over.
    pub fn new(fd: AutoCloseFd) -> (stream: TcpStream)
        ensures
            stream == (TcpStream { fd: Some(fd@) }),
    {
        TcpStream { fd: Some(fd.into_raw_fd()) }
    }

    /// The descriptor of an open stream.
    pub fn fd(&self) -> (result: Result<i32, Error>)
        ensures
            match self.fd {
                Some(fd) => result == Ok::<i32, Error>(fd),
                None => result matches Err(error) && error@ == ErrorView::AlreadyClosed,
            },
    {
        match self.fd {
            Some(fd) => Ok(fd),
            None => Err(Error::AlreadyClosed),
        }
    }
}

/// A stream lives on the descriptor that it took over, until it is closed.
pub proof fn law_stream_fd(
    owned: AutoCloseFd,
    stream: TcpStream,
    closed: TcpStream,
    result: Result<i32, Error>,
    refused: Result<i32, Error>,
)
    requires
        call_ensures(TcpStream::new, (owned,), stream),
        call_ensures(TcpStream::fd, (&stream,), result),
        closed.fd is None,
        call_ensures(TcpStream::fd, (&closed,), refused),
    ensures
        stream.fd == Some(owned@),
        result == Ok::<i32, Error>(owned@),
        refused matches Err(error) && error is AlreadyClosed,
{
}

} // verus!
