//! What it takes to bind a listener.
use vstd::prelude::*;

use crate::addr::SockAddr;
use crate::error::{Error, ErrorView, OsError};
use crate::listener::{Bind, TcpListener};
use crate::platform::Platform;
use crate::progress;
use crate::progress::{Machine, Progress};
use crate::resolve::{resolve_addr, AddrEntry, LookupError};
use crate::syscall::{Reply, SetSockOpt, Syscall};

verus! {

/// `steps` is how a bind is carried out by `replies`.
pub open spec fn bound(
    host: &str,
    port: u16,
    lookup: Result<Vec<AddrEntry>, LookupError>,
    platform: Platform,
    steps: Seq<Progress<Bind, Result<TcpListener, Error>>>,
    replies: Seq<Reply>,
) -> bool {
    &&& steps.len() == replies.len() + 1
    &&& call_ensures(TcpListener::bind, (host, port, &lookup, &platform), steps[0])
    &&& forall|i: int|
        0 <= i < replies.len() ==> (#[trigger] steps[i]) is Pending && call_ensures(
            Bind::resume,
            (steps[i]->state, &replies[i]),
            steps[i + 1],
        )
}

/// The two errors of a resolution say the same.
pub open spec fn agree(a: Error, b: Error) -> bool {
    match (a, b) {
        (Error::ResolveAddress(x), Error::ResolveAddress(y)) => x@ == y@,
        (Error::ConstructCString(x), Error::ConstructCString(y)) => x.position == y.position
            && x.bytes@ == y.bytes@,
        (Error::UnknownAddressFamily(x), Error::UnknownAddressFamily(y)) => x == y,
        (Error::Timeout, Error::Timeout) => true,
        _ => false,
    }
}

/// A socket of the kind of `addr` is opened, set up, bound to `addr`, and made to
/// listen. An error closes the socket, unless it comes from listening.
pub open spec fn tries(
    platform: Platform,
    addr: SockAddr,
    calls: Seq<Syscall>,
    replies: Seq<Reply>,
    outcome: Option<Result<i32, OsError>>,
) -> bool {
    let (domain, addr_len) = match addr {
        SockAddr::V4(_) => (platform.af_inet, platform.sockaddr_in_len),
        SockAddr::V6(_) => (platform.af_inet6, platform.sockaddr_in6_len),
    };
    super::performs(
        Syscall::Socket { domain, ty: super::stream_type(platform), protocol: 0 },
        super::listens(platform, addr, addr_len),
        None,
        true,
        calls,
        replies,
        outcome,
    )
}

/// The addresses of `addrs` are tried in order: by the replies of `portions` the
/// attempts make the calls of `parts` and come to `ends`. Every attempt but the
/// last has failed.
pub open spec fn tries_in_order(
    platform: Platform,
    addrs: Seq<SockAddr>,
    portions: Seq<Seq<Reply>>,
    parts: Seq<Seq<Syscall>>,
    ends: Seq<Option<Result<i32, OsError>>>,
) -> bool {
    &&& 0 < portions.len() <= addrs.len()
    &&& parts.len() == portions.len()
    &&& ends.len() == portions.len()
    &&& forall|j: int|
        0 <= j < portions.len() ==> tries(
            platform,
            addrs[j],
            parts[j],
            #[trigger] portions[j],
            ends[j],
        )
    &&& forall|j: int|
        0 <= j < portions.len() - 1 ==> (#[trigger] ends[j]) is Some && ends[j]->0 is Err
}

/// How the attempts of a bind decide it: it waits while the last one does, a
/// descriptor makes the listener, and an error is that of the bind, if there is no
/// other address to try.
pub open spec fn decides(
    host: Seq<char>,
    port: u16,
    last_address: bool,
    end: Option<Result<i32, OsError>>,
    step: Progress<Bind, Result<TcpListener, Error>>,
) -> bool {
    match end {
        None => step is Pending,
        Some(Ok(fd)) => step matches Progress::Complete(Ok(listener))
            && listener.connections_stream.fd == Some(fd),
        Some(Err(error)) => last_address && (step matches Progress::Complete(
            Err(Error::Bind { error: reported, address }),
        ) && reported == error && crate::text::names(address@, host, port)),
    }
}

/// A name that does not resolve ends the bind at once: nothing is called, and the
/// error is that of the resolution. One that resolves to no address is reported by
/// host and port.
pub proof fn law_bind_unresolved(
    host: &str,
    port: u16,
    lookup: Result<Vec<AddrEntry>, LookupError>,
    platform: Platform,
    resolved: Result<Vec<SockAddr>, Error>,
    steps: Seq<Progress<Bind, Result<TcpListener, Error>>>,
    replies: Seq<Reply>,
)
    requires
        call_ensures(resolve_addr, (host, port, &lookup, &platform), resolved),
        bound(host, port, lookup, platform, steps, replies),
        resolved matches Ok(addrs) ==> addrs@.len() == 0,
    ensures
        replies.len() == 0,
        progress::made(steps).len() == 0,
        steps[0] matches Progress::Complete(Err(error)) && match resolved {
            Err(why) => agree(error, why),
            Ok(_) => error matches Error::ResolveAddress(name) && crate::text::names(
                name@,
                host@,
                port,
            ),
        },
{
    crate::text::lemma_host_port(host@, port);
    assert(crate::listener::bind_progress(steps[0]) is Complete);
    if replies.len() > 0 {
        assert(steps[0] is Pending);
    }
}

/// Every host and port can be bound to, by any lookup whose entries were read
/// rightly.
pub proof fn law_bind_takes_any_name(
    host: &str,
    port: u16,
    lookup: Result<Vec<AddrEntry>, LookupError>,
    platform: Platform,
)
    requires
        super::resolving::all_read_rightly(lookup, platform),
    ensures
        call_requires(resolve_addr, (host, port, &lookup, &platform)),
        call_requires(TcpListener::bind, (host, port, &lookup, &platform)),
{
    if let Ok(entries) = lookup {
        assert forall|k: int| 0 <= k < entries@.len() implies (#[trigger] entries@[k]).wf(
            platform,
        ) by {
            assert(super::resolving::read_rightly(entries@[k], platform));
        }
    }
}

/// A bind that waits for a reply can take any.
pub proof fn law_bind_takes_any_reply(
    host: &str,
    port: u16,
    lookup: Result<Vec<AddrEntry>, LookupError>,
    platform: Platform,
    steps: Seq<Progress<Bind, Result<TcpListener, Error>>>,
    replies: Seq<Reply>,
    reply: Reply,
)
    requires
        bound(host, port, lookup, platform, steps, replies),
        steps.last() is Pending,
    ensures
        call_requires(Bind::resume, (steps.last()->state, &reply)),
{
    let n = replies.len() as int;
    if n > 0 {
        assert(steps[n - 1] is Pending);
    }
    assert(crate::listener::pending_wf(crate::listener::bind_progress(steps[n])));
}

/// A name that resolves: its addresses are tried in order, and the last attempt
/// that is made decides. The result is how the replies and the calls belong to the
/// attempts, and what these come to.
pub proof fn law_bind(
    host: &str,
    port: u16,
    lookup: Result<Vec<AddrEntry>, LookupError>,
    platform: Platform,
    addrs: Vec<SockAddr>,
    steps: Seq<Progress<Bind, Result<TcpListener, Error>>>,
    replies: Seq<Reply>,
) -> (attempts: (Seq<Seq<Reply>>, Seq<Seq<Syscall>>, Seq<Option<Result<i32, OsError>>>))
    requires
        call_ensures(resolve_addr, (host, port, &lookup, &platform), Ok(addrs)),
        bound(host, port, lookup, platform, steps, replies),
        addrs@.len() > 0,
    ensures
        ({
            let (portions, parts, ends) = attempts;
            &&& replies == portions.flatten()
            &&& progress::made(steps) == parts.flatten()
            &&& tries_in_order(platform, addrs@, portions, parts, ends)
            &&& decides(host@, port, portions.len() == addrs@.len(), ends.last(), steps.last())
        }),
{
    lemma_bound(host, port, lookup, platform, addrs@, steps, replies)
}

#[verifier::rlimit(40)]
proof fn lemma_bound(
    host: &str,
    port: u16,
    lookup: Result<Vec<AddrEntry>, LookupError>,
    platform: Platform,
    addrs: Seq<SockAddr>,
    steps: Seq<Progress<Bind, Result<TcpListener, Error>>>,
    replies: Seq<Reply>,
) -> (attempts: (Seq<Seq<Reply>>, Seq<Seq<Syscall>>, Seq<Option<Result<i32, OsError>>>))
    requires
        crate::resolve::resolution(host@, port, crate::resolve::lookup_view(lookup), platform)
            == Ok::<_, ErrorView>(addrs),
        bound(host, port, lookup, platform, steps, replies),
        addrs.len() > 0,
    ensures
        ({
            let (portions, parts, ends) = attempts;
            &&& replies == portions.flatten()
            &&& progress::made(steps) == parts.flatten()
            &&& tries_in_order(platform, addrs, portions, parts, ends)
            &&& decides(host@, port, portions.len() == addrs.len(), ends.last(), steps.last())
        }),
{
    let views = steps.map_values(
        |step: Progress<Bind, Result<TcpListener, Error>>| crate::listener::bind_progress(step),
    );
    let start = crate::listener::bind_start(host@, port, Ok(addrs), platform);
    assert(views[0] == start);
    assert forall|i: int| 0 <= i < replies.len() implies (#[trigger] views[i]) is Pending && views[i
        + 1] == views[i]->state.next(replies[i]) by {
        assert(steps[i] is Pending);
    }
    progress::law_chain(views, replies);
    assert(progress::made(steps) =~= progress::calls(start, replies));
    let portions = crate::listener::lemma_bind_portions(host@, port, addrs, platform, replies);
    let parts = crate::listener::attempt_calls(addrs, platform, portions);
    let ends = Seq::new(
        portions.len(),
        |j: int|
            super::came_to(
                progress::after(
                    crate::listener::listen_plan(addrs[j], platform).start(),
                    portions[j],
                ),
            ),
    );
    assert forall|j: int| 0 <= j < portions.len() implies tries(
        platform,
        addrs[j],
        parts[j],
        #[trigger] portions[j],
        ends[j],
    ) by {
        if j < portions.len() - 1 {
            assert(portions.drop_last()[j] == portions[j]);
        }
        lemma_tries(platform, addrs[j], portions[j]);
    }
    assert forall|j: int| 0 <= j < portions.len() - 1 implies (#[trigger] ends[j]) is Some
        && ends[j]->0 is Err by {
        assert(portions.drop_last()[j] == portions[j]);
    }
    crate::text::lemma_host_port(host@, port);
    (portions, parts, ends)
}

proof fn lemma_tries(platform: Platform, addr: SockAddr, replies: Seq<Reply>)
    requires
        replies.len() > 0 ==> progress::after(
            crate::listener::listen_plan(addr, platform).start(),
            replies.drop_last(),
        ) is Pending,
    ensures
        tries(
            platform,
            addr,
            progress::calls(crate::listener::listen_plan(addr, platform).start(), replies),
            replies,
            super::came_to(
                progress::after(crate::listener::listen_plan(addr, platform).start(), replies),
            ),
        ),
{
    crate::syscall::law_int_option_len();
    let plan = crate::listener::listen_plan(addr, platform);
    let todo = super::listens(platform, addr, addr.size(platform));
    assert forall|fd: i32| #[trigger] super::plan_is(plan, fd, todo(fd), None, true) by {}
    super::lemma_performs(plan, todo, None, true, replies);
}

/// The calls of an attempt that has made a listener.
spec fn listening(
    platform: Platform,
    addr: SockAddr,
    fd: i32,
    calls: Seq<Syscall>,
) -> bool {
    let n = calls.len() as int;
    let setup: int = if platform.os is MacOs {
        3
    } else {
        0
    };
    &&& n >= 4 + setup
    &&& calls[n - 4 - setup] == (Syscall::Socket {
        domain: if addr is V4 {
            platform.af_inet
        } else {
            platform.af_inet6
        },
        ty: super::stream_type(platform),
        protocol: 0,
    })
    &&& calls[n - 3] == (Syscall::Bind {
        fd,
        addr,
        addr_len: if addr is V4 {
            platform.sockaddr_in_len
        } else {
            platform.sockaddr_in6_len
        },
    })
    &&& calls[n - 2] == Syscall::SetSockOpt(
        SetSockOpt {
            fd,
            level: platform.sol_socket,
            name: platform.so_reuseaddr,
            value: 1,
            len: 4,
        },
    )
    &&& calls[n - 1] == (Syscall::Listen { fd, backlog: platform.somaxconn })
}

proof fn lemma_listens(
    platform: Platform,
    addr: SockAddr,
    calls: Seq<Syscall>,
    replies: Seq<Reply>,
    fd: i32,
)
    requires
        tries(platform, addr, calls, replies, Some(Ok(fd))),
    ensures
        listening(platform, addr, fd, calls),
{
    let later = calls.drop_first();
    let todo = super::listens(platform, addr, addr.size(platform))(fd);
    assert(later =~= todo);
    assert forall|i: int| 0 <= i < todo.len() implies calls[i + 1] == #[trigger] todo[i] by {
        assert(later[i] == calls[i + 1]);
    }
    let n = todo.len() as int;
    assert(todo[n - 1] == calls[n]);
    assert(todo[n - 2] == calls[n - 1]);
    assert(todo[n - 3] == calls[n - 2]);
}

proof fn lemma_tail(before: Seq<Syscall>, part: Seq<Syscall>, calls: Seq<Syscall>)
    requires
        calls == before + part,
    ensures
        forall|i: int|
            0 < i <= part.len() ==> #[trigger] calls[calls.len() - i] == part[part.len() - i],
{
}

/// A listener that comes of a bind listens where it was asked to: the last calls
/// bind its descriptor to an address that the lookup found, with the requested port
/// and the size of its kind, let the address be used again, and make that very
/// descriptor listen. Before that, the descriptor was opened for the family of the
/// address. The result is that address, and the number of its entry.
#[verifier::rlimit(40)]
pub proof fn law_bind_listens(
    host: &str,
    port: u16,
    lookup: Result<Vec<AddrEntry>, LookupError>,
    platform: Platform,
    steps: Seq<Progress<Bind, Result<TcpListener, Error>>>,
    replies: Seq<Reply>,
    listener: TcpListener,
) -> (address: (SockAddr, int))
    requires
        super::resolving::all_read_rightly(lookup, platform),
        bound(host, port, lookup, platform, steps, replies),
        steps.last() == Progress::<Bind, Result<TcpListener, Error>>::Complete(Ok(listener)),
    ensures
        ({
            let (addr, k) = address;
            let calls = progress::made(steps);
            let n = calls.len() as int;
            let setup: int = if platform.os is MacOs {
                3
            } else {
                0
            };
            &&& lookup matches Ok(entries)
            &&& 0 <= k < entries@.len()
            &&& super::resolving::differs_in_port(addr, entries@[k], port)
            &&& listener.connections_stream.fd matches Some(fd)
            &&& n >= 4 + setup
            &&& calls[n - 4 - setup] == (Syscall::Socket {
                domain: if addr is V4 {
                    platform.af_inet
                } else {
                    platform.af_inet6
                },
                ty: super::stream_type(platform),
                protocol: 0,
            })
            &&& calls[n - 3] == (Syscall::Bind {
                fd,
                addr,
                addr_len: if addr is V4 {
                    platform.sockaddr_in_len
                } else {
                    platform.sockaddr_in6_len
                },
            })
            &&& calls[n - 2] == Syscall::SetSockOpt(
                SetSockOpt {
                    fd,
                    level: platform.sol_socket,
                    name: platform.so_reuseaddr,
                    value: 1,
                    len: 4,
                },
            )
            &&& calls[n - 1] == (Syscall::Listen { fd, backlog: platform.somaxconn })
        }),
{
    let resolved = crate::resolve::resolution(
        host@,
        port,
        crate::resolve::lookup_view(lookup),
        platform,
    );
    if replies.len() > 0 {
        assert(steps[0] is Pending);
    }
    assert(crate::listener::bind_progress(steps[0]) == crate::listener::bind_start(
        host@,
        port,
        resolved,
        platform,
    ));
    let addrs = resolved->Ok_0;
    let entries = lookup->Ok_0@;
    let places = super::resolving::lemma_resolution(host@, port, entries, platform, addrs);
    let (portions, parts, ends) = lemma_bound(host, port, lookup, platform, addrs, steps, replies);
    let at = portions.len() - 1;
    let addr = addrs[at];
    let part = parts[at];
    assert(tries(platform, addr, part, portions[at], ends[at]));
    lemma_listens(platform, addr, part, portions[at], ends[at]->0->Ok_0);
    assert(parts =~= parts.drop_last().push(part));
    parts.drop_last().lemma_flatten_push(part);
    lemma_tail(parts.drop_last().flatten(), part, progress::made(steps));
    assert(0 <= places[at] < entries.len());
    (addr, places[at])
}

} // verus!
