//! What a host name resolves to.
use vstd::prelude::*;

use crate::addr::SockAddr;
use crate::error::{Error, ErrorKind};
use crate::platform::Platform;
use crate::resolve::{
    addr_layout, lookup_request, resolve_addr, AddrEntry, AddrLayout, EntryAddr, LookupError,
    LookupRequest, LookupView,
};

verus! {

/// An entry of an IPv4 or IPv6 family holds an address of that kind.
pub open spec fn read_rightly(entry: AddrEntry, platform: Platform) -> bool {
    &&& entry.family == platform.af_inet ==> entry.addr is In
    &&& entry.family == platform.af_inet6 && entry.family != platform.af_inet ==> entry.addr is In6
}

/// All entries that the lookup found were read rightly.
pub open spec fn all_read_rightly(
    lookup: Result<Vec<AddrEntry>, LookupError>,
    platform: Platform,
) -> bool {
    lookup matches Ok(entries) ==> forall|k: int|
        0 <= k < entries@.len() ==> read_rightly(#[trigger] entries@[k], platform)
}

/// The two bytes are `port`, the more significant one first.
pub open spec fn is_port(bytes: [u8; 2], port: u16) -> bool {
    bytes[0] == port / 256 && bytes[1] == port % 256
}

/// `addr` is the address of `entry` in everything but its port, which is `port`.
pub open spec fn differs_in_port(addr: SockAddr, entry: AddrEntry, port: u16) -> bool {
    match (addr, entry.addr) {
        (SockAddr::V4(v4), EntryAddr::In(raw)) => {
            &&& v4.sin_family == raw.sin_family
            &&& v4.sin_addr == raw.sin_addr
            &&& v4.sin_zero == raw.sin_zero
            &&& is_port(v4.sin_port, port)
        },
        (SockAddr::V6(v6), EntryAddr::In6(raw)) => {
            &&& v6.sin6_family == raw.sin6_family
            &&& v6.sin6_flowinfo == raw.sin6_flowinfo
            &&& v6.sin6_addr == raw.sin6_addr
            &&& v6.sin6_scope_id == raw.sin6_scope_id
            &&& is_port(v6.sin6_port, port)
        },
        _ => false,
    }
}

/// `places` tells which entry each address comes from: every entry gives one
/// address, which differs from it in nothing but the port. Those of IPv4 come
/// first, and those of one kind keep the order of the entries.
pub open spec fn stem_from(
    addrs: Seq<SockAddr>,
    entries: Seq<AddrEntry>,
    port: u16,
    places: Seq<int>,
) -> bool {
    &&& addrs.len() == entries.len()
    &&& places.len() == entries.len()
    &&& forall|i: int|
        0 <= i < places.len() ==> 0 <= (#[trigger] places[i]) < entries.len() && differs_in_port(
            addrs[i],
            entries[places[i]],
            port,
        )
    &&& forall|k: int| 0 <= k < entries.len() ==> #[trigger] places.contains(k)
    &&& forall|i: int, j: int|
        #![trigger places[i], places[j]]
        0 <= i < j < places.len() ==> {
            &&& addrs[j] is V4 ==> addrs[i] is V4
            &&& (addrs[i] is V4 <==> addrs[j] is V4) ==> places[i] < places[j]
        }
}

/// The family is that of IPv4 or that of IPv6.
pub open spec fn known(family: i32, platform: Platform) -> bool {
    family == platform.af_inet || family == platform.af_inet6
}

/// The family decides how the address of an entry is read.
pub proof fn law_addr_layout(family: i32, platform: Platform, layout: AddrLayout)
    requires
        call_ensures(addr_layout, (family, &platform), layout),
    ensures
        family == platform.af_inet ==> layout is In,
        family == platform.af_inet6 && family != platform.af_inet ==> layout is In6,
        !known(family, platform) ==> layout is Unknown,
{
}

/// A lookup ran out of time if its I/O error says so, or if the type of its
/// Tarantool error does.
pub open spec fn out_of_time(error: LookupError) -> bool {
    match error {
        LookupError::Io(kind) => kind == ErrorKind::TimedOut,
        LookupError::Tarantool { error_type: Some(name) } => name@ == seq![
            'T',
            'i',
            'm',
            'e',
            'd',
            'O',
            'u',
            't',
        ],
        LookupError::Tarantool { error_type: None } => false,
        LookupError::Other => false,
    }
}

/// Only a lookup that ran out of time is a timeout.
pub proof fn law_is_timeout(error: LookupError, yes: bool)
    requires
        call_ensures(LookupError::is_timeout, (&error,), yes),
    ensures
        yes <==> out_of_time(error),
{
    lemma_timed_out(error);
}

proof fn lemma_timed_out(error: LookupError)
    ensures
        error.timed_out() <==> out_of_time(error),
{
    reveal_strlit("TimedOut");
    assert("TimedOut"@ =~= seq!['T', 'i', 'm', 'e', 'd', 'O', 'u', 't']);
}

/// A name is looked up by all its bytes, for stream sockets of any family, unless
/// it holds a zero byte: then the first one is reported.
pub proof fn law_lookup_request(
    url: &str,
    platform: Platform,
    result: Result<LookupRequest, Error>,
)
    requires
        call_ensures(lookup_request, (url, &platform), result),
    ensures
        match result {
            Ok(request) => {
                &&& request.host@ == vstd::utf8::encode_utf8(url@)
                &&& forall|i: int| 0 <= i < request.host@.len() ==> (#[trigger] request.host@[i]) != 0
                &&& request.hints.ai_family == platform.af_unspec
                &&& request.hints.ai_socktype == platform.sock_stream
            },
            Err(error) => names_zero_byte(error, url@),
        },
{
    vstd::utf8::encode_utf8(url@).index_of_first_ensures(0u8);
}

/// The error names the first zero byte of `url`, and holds all its bytes.
pub open spec fn names_zero_byte(error: Error, url: Seq<char>) -> bool {
    error matches Error::ConstructCString(nul) && {
        &&& nul.bytes@ == vstd::utf8::encode_utf8(url)
        &&& nul.position < nul.bytes@.len()
        &&& nul.bytes@[nul.position as int] == 0
        &&& forall|i: int| 0 <= i < nul.position ==> (#[trigger] nul.bytes@[i]) != 0
    }
}

/// The entry number `k` is the first one of an unknown family.
pub open spec fn first_unknown(entries: Seq<AddrEntry>, platform: Platform, k: int) -> bool {
    &&& 0 <= k < entries.len()
    &&& !known(entries[k].family, platform)
    &&& forall|j: int| 0 <= j < k ==> known((#[trigger] entries[j]).family, platform)
}

/// When a name does not resolve, and why: it holds a zero byte, or else its lookup
/// failed, or else some entry is of an unknown family, of which the low 16 bits are
/// reported for the first such entry.
pub proof fn law_resolve_fails(
    url: &str,
    port: u16,
    lookup: Result<Vec<AddrEntry>, LookupError>,
    platform: Platform,
    result: Result<Vec<SockAddr>, Error>,
)
    requires
        call_ensures(resolve_addr, (url, port, &lookup, &platform), result),
    ensures
        ({
            let bytes = vstd::utf8::encode_utf8(url@);
            if bytes.contains(0u8) {
                result matches Err(error) && names_zero_byte(error, url@)
            } else {
                match lookup {
                    Err(why) => result matches Err(error) && if out_of_time(why) {
                        error is Timeout
                    } else {
                        error matches Error::ResolveAddress(name) && name@ == url@
                    },
                    Ok(entries) => {
                        &&& result is Ok <==> forall|k: int|
                            0 <= k < entries@.len() ==> known(
                                (#[trigger] entries@[k]).family,
                                platform,
                            )
                        &&& forall|k: int| #[trigger]
                            first_unknown(entries@, platform, k) ==> (result matches Err(
                                Error::UnknownAddressFamily(family),
                            ) && (entries@[k].family - family) % 0x10000 == 0)
                    },
                }
            }
        }),
{
    let bytes = vstd::utf8::encode_utf8(url@);
    bytes.index_of_first_ensures(0u8);
    let view = crate::resolve::lookup_view(lookup);
    crate::resolve::law_resolves_when(url@, port, view, platform);
    match lookup {
        Err(why) => {
            lemma_timed_out(why);
        },
        Ok(entries) => {
            let kinds = crate::resolve::layouts(entries@, platform);
            kinds.index_of_first_ensures(AddrLayout::Unknown);
            assert forall|k: int| 0 <= k < entries@.len() implies (known(
                (#[trigger] entries@[k]).family,
                platform,
            ) <==> kinds[k] !is Unknown) by {}
            if !bytes.contains(0u8) {
                assert forall|k: int| #[trigger] first_unknown(entries@, platform, k) implies (
                result matches Err(Error::UnknownAddressFamily(family)) && (entries@[k].family
                    - family) % 0x10000 == 0) by {
                    assert(kinds[k] is Unknown);
                    assert(kinds.contains(AddrLayout::Unknown));
                    let first = kinds.index_of_first(AddrLayout::Unknown)->0;
                    if k < first {
                        assert(kinds[k] !is Unknown);
                    }
                    if first < k {
                        assert(known(entries@[first].family, platform));
                    }
                }
            }
        },
    }
}

/// What a name resolves to: the addresses of all entries, unchanged but for the
/// port, those of IPv4 first. The result tells which entry each address comes from.
pub proof fn law_resolve_addresses(
    url: &str,
    port: u16,
    entries: Vec<AddrEntry>,
    platform: Platform,
    addrs: Vec<SockAddr>,
) -> (places: Seq<int>)
    requires
        call_ensures(resolve_addr, (url, port, &Ok(entries), &platform), Ok(addrs)),
        all_read_rightly(Ok(entries), platform),
    ensures
        stem_from(addrs@, entries@, port, places),
{
    lemma_resolution(url@, port, entries@, platform, addrs@)
}

pub(crate) proof fn lemma_resolution(
    url: Seq<char>,
    port: u16,
    entries: Seq<AddrEntry>,
    platform: Platform,
    addrs: Seq<SockAddr>,
) -> (places: Seq<int>)
    requires
        crate::resolve::resolution(url, port, LookupView::Found(entries), platform) == Ok::<
            _,
            crate::error::ErrorView,
        >(addrs),
        forall|k: int| 0 <= k < entries.len() ==> read_rightly(#[trigger] entries[k], platform),
    ensures
        stem_from(addrs, entries, port, places),
{
    crate::resolve::law_resolves_when(url, port, LookupView::Found(entries), platform);
    let found = crate::resolve::at_port(entries, port);
    let places = crate::addr::lemma_sorts(found);
    assert forall|i: int| 0 <= i < places.len() implies 0 <= (#[trigger] places[i]) < entries.len()
        && differs_in_port(addrs[i], entries[places[i]], port) by {
        let k = places[i];
        assert(found[k] == entries[k].at_port(port));
        assert(read_rightly(entries[k], platform));
    }
    places
}

} // verus!
