//! Errors of the listener, and the operating system errors they carry.
use vstd::prelude::*;

verus! {

/// What kind of failure an I/O error stands for, as far as the listener cares.
#[derive(Clone, Copy, Debug, PartialEq, Eq, Structural)]
pub enum ErrorKind {
    /// The operation would have to block, and was asked not to.
    WouldBlock,
    /// The operation ran out of time.
    TimedOut,
    /// Any other kind.
    Other,
}

/// `std::io::Error`, of which nothing is known but what the items below say.
#[verifier::external_type_specification]
#[verifier::external_body]
pub struct ExIoError(std::io::Error);

/// `std::io::Error::from_raw_os_error`: the error that an error number of the
/// operating system stands for. Which one that is, is left to the system.
pub assume_specification[ std::io::Error::from_raw_os_error ](code: i32) -> (error: std::io::Error);

/// `std::io::Error::kind`, with the kinds that the listener does not tell apart
/// taken together. Which number stands for which kind depends on the system, so
/// nothing is claimed of the result.
#[verifier::external_body]
fn error_kind(error: &std::io::Error) -> (kind: ErrorKind) {
    match error.kind() {
        std::io::ErrorKind::WouldBlock => ErrorKind::WouldBlock,
        std::io::ErrorKind::TimedOut => ErrorKind::TimedOut,
        _ => ErrorKind::Other,
    }
}

/// The system can give the error number `code` the kind `kind`: it is the kind of
/// the error that `code` itself stands for.
pub closed spec fn system_kind(code: i32, kind: ErrorKind) -> bool {
    exists|error: std::io::Error|
        #![trigger call_ensures(error_kind, (&error,), kind)]
        call_ensures(std::io::Error::from_raw_os_error, (code,), error) && call_ensures(
            error_kind,
            (&error,),
            kind,
        )
}

/// The kind that the system gives an error number.
pub fn kind_of(code: i32) -> (kind: ErrorKind)
    ensures
        system_kind(code, kind),
{
    let error = std::io::Error::from_raw_os_error(code);
    error_kind(&error)
}

/// An error of the operating system, given by its number.
#[derive(Clone, Copy, Debug, PartialEq, Eq, Structural)]
pub struct OsError {
    pub code: i32,
}

/// A string that cannot be handed to C, because it holds a zero byte.
#[derive(Debug, PartialEq, Eq)]
pub struct NulError {
    /// Position of the first zero byte.
    pub position: usize,
    /// All bytes of the string.
    pub bytes: Vec<u8>,
}

/// What can go wrong with a listener or a connection.
#[derive(Debug, PartialEq, Eq)]
#[non_exhaustive]
pub enum Error {
    /// Failed to resolve this domain name.
    ResolveAddress(String),
    /// An input parameter holds a string that C cannot represent.
    ConstructCString(NulError),
    /// Failed to connect to an address.
    Connect { error: OsError, address: String },
    /// Failed to bind to an address.
    Bind { error: OsError, address: String },
    /// Failed to accept a connection on a socket.
    Accept { error: OsError },
    /// An address of a family that is neither IPv4 nor IPv6.
    UnknownAddressFamily(u16),
    /// The write half of the stream is closed.
    WriteClosed,
    /// The operation ran out of time.
    Timeout,
    /// The socket is already closed.
    AlreadyClosed,
}

/// The mathematical content of an [`Error`].
#[verifier::ext_equal]
pub enum ErrorView {
    ResolveAddress(Seq<char>),
    ConstructCString { position: int, bytes: Seq<u8> },
    Connect { error: OsError, address: Seq<char> },
    Bind { error: OsError, address: Seq<char> },
    Accept { error: OsError },
    UnknownAddressFamily(u16),
    WriteClosed,
    Timeout,
    AlreadyClosed,
}

impl View for Error {
    type V = ErrorView;

    open spec fn view(&self) -> ErrorView {
        match *self {
            Error::ResolveAddress(name) => ErrorView::ResolveAddress(name@),
            Error::ConstructCString(nul) => ErrorView::ConstructCString {
                position: nul.position as int,
                bytes: nul.bytes@,
            },
            Error::Connect { error, address } => ErrorView::Connect { error, address: address@ },
            Error::Bind { error, address } => ErrorView::Bind { error, address: address@ },
            Error::Accept { error } => ErrorView::Accept { error },
            Error::UnknownAddressFamily(family) => ErrorView::UnknownAddressFamily(family),
            Error::WriteClosed => ErrorView::WriteClosed,
            Error::Timeout => ErrorView::Timeout,
            Error::AlreadyClosed => ErrorView::AlreadyClosed,
        }
    }
}

/// The kind of an error number is the one of the error that this very number stands
/// for.
proof fn law_kind_of(code: i32, kind: ErrorKind)
    requires
        call_ensures(kind_of, (code,), kind),
    ensures
        exists|error: std::io::Error|
            #![trigger call_ensures(error_kind, (&error,), kind)]
            call_ensures(std::io::Error::from_raw_os_error, (code,), error) && call_ensures(
                error_kind,
                (&error,),
                kind,
            ),
{
}

} // verus!
