//! From a host name to the socket addresses to try.
use vstd::prelude::*;

use crate::addr::{sort_addrs, to_network_order, SockAddr, SockAddrIn, SockAddrIn6};
use crate::error::{Error, ErrorKind, ErrorView};
use crate::platform::Platform;
use crate::text::c_string;

verus! {

/// What a lookup is restricted to; all that is not named here stays zero.
#[derive(Clone, Copy, Debug, PartialEq, Eq, Structural)]
pub struct Hints {
    pub ai_family: i32,
    pub ai_socktype: i32,
}

/// A lookup that the name service is asked to make.
#[derive(Debug, PartialEq, Eq)]
pub struct LookupRequest {
    /// Bytes of the host name, none of them zero.
    pub host: Vec<u8>,
    pub hints: Hints,
}

/// Why a lookup failed.
#[derive(Debug, PartialEq, Eq)]
pub enum LookupError {
    /// An I/O error of this kind.
    Io(ErrorKind),
    /// An error that Tarantool raised, with its type where it has one.
    Tarantool { error_type: Option<String> },
    /// Anything else.
    Other,
}

/// How the memory of an address is laid out.
#[derive(Clone, Copy, Debug, PartialEq, Eq, Structural)]
pub enum AddrLayout {
    In,
    In6,
    Unknown,
}

/// An address as it was read from an entry, by the layout of its family.
#[derive(Clone, Copy, Debug, PartialEq, Eq)]
pub enum EntryAddr {
    In(SockAddrIn),
    In6(SockAddrIn6),
    /// Nothing is read from an entry of unknown layout.
    Unread,
}

/// One entry of the list that a lookup found.
#[derive(Clone, Copy, Debug, PartialEq, Eq)]
pub struct AddrEntry {
    pub family: i32,
    pub addr: EntryAddr,
}

/// The layout that goes with an address family.
pub open spec fn layout_of(family: i32, platform: Platform) -> AddrLayout {
    if family == platform.af_inet {
        AddrLayout::In
    } else if family == platform.af_inet6 {
        AddrLayout::In6
    } else {
        AddrLayout::Unknown
    }
}

/// Tells by which layout the address of an entry has to be read.
pub fn addr_layout(family: i32, platform: &Platform) -> (layout: AddrLayout)
    ensures
        layout == layout_of(family, *platform),
{
    if family == platform.af_inet {
        AddrLayout::In
    } else if family == platform.af_inet6 {
        AddrLayout::In6
    } else {
        AddrLayout::Unknown
    }
}

impl AddrEntry {
    /// The address was read by the layout of the entry's family.
    pub open spec fn wf(self, platform: Platform) -> bool {
        match layout_of(self.family, platform) {
            AddrLayout::In => self.addr is In,
            AddrLayout::In6 => self.addr is In6,
            AddrLayout::Unknown => true,
        }
    }

    /// The address of the entry, with `port` in place of its own.
    pub open spec fn at_port(self, port: u16) -> SockAddr
        recommends
            self.addr !is Unread,
    {
        match self.addr {
            EntryAddr::In(addr) => SockAddr::V4(
                SockAddrIn { sin_port: crate::addr::network_order(port), ..addr },
            ),
            EntryAddr::In6(addr) => SockAddr::V6(
                SockAddrIn6 { sin6_port: crate::addr::network_order(port), ..addr },
            ),
            EntryAddr::Unread => arbitrary(),
        }
    }
}

impl LookupError {
    /// The lookup failed because it ran out of time.
    pub open spec fn timed_out(self) -> bool {
        match self {
            LookupError::Io(kind) => kind is TimedOut,
            LookupError::Tarantool { error_type: Some(name) } => name@ == "TimedOut"@,
            _ => false,
        }
    }

    pub fn is_timeout(&self) -> (yes: bool)
        ensures
            yes == self.timed_out(),
    {
        match self {
            LookupError::Io(kind) => *kind == ErrorKind::TimedOut,
            LookupError::Tarantool { error_type: Some(name) } => *name == "TimedOut".to_owned(),
            _ => false,
        }
    }
}

/// What came of a lookup.
pub enum LookupView {
    /// The entries that were found.
    Found(Seq<AddrEntry>),
    TimedOut,
    Failed,
}

pub open spec fn lookup_view(lookup: Result<Vec<AddrEntry>, LookupError>) -> LookupView {
    match lookup {
        Ok(entries) => LookupView::Found(entries@),
        Err(error) => if error.timed_out() {
            LookupView::TimedOut
        } else {
            LookupView::Failed
        },
    }
}

/// Every entry was read by the layout of its family.
pub open spec fn well_read(lookup: LookupView, platform: Platform) -> bool {
    lookup matches LookupView::Found(entries) ==> forall|i: int|
        0 <= i < entries.len() ==> (#[trigger] entries[i]).wf(platform)
}

/// The layouts of all entries.
pub open spec fn layouts(entries: Seq<AddrEntry>, platform: Platform) -> Seq<AddrLayout> {
    entries.map_values(|entry: AddrEntry| layout_of(entry.family, platform))
}

/// The addresses of all entries, with `port` in place of their own.
pub open spec fn at_port(entries: Seq<AddrEntry>, port: u16) -> Seq<SockAddr> {
    entries.map_values(|entry: AddrEntry| entry.at_port(port))
}

/// The low 16 bits of `family`.
pub open spec fn family_number(family: i32) -> u16 {
    (family as int % 0x10000) as u16
}

/// What a host name resolves to, given what came of its lookup.
///
/// The first entry of an unknown family spoils the whole list.
pub open spec fn resolution(
    url: Seq<char>,
    port: u16,
    lookup: LookupView,
    platform: Platform,
) -> Result<Seq<SockAddr>, ErrorView> {
    let bytes = vstd::utf8::encode_utf8(url);
    match bytes.index_of_first(0u8) {
        Some(position) => Err(ErrorView::ConstructCString { position, bytes }),
        None => match lookup {
            LookupView::TimedOut => Err(ErrorView::Timeout),
            LookupView::Failed => Err(ErrorView::ResolveAddress(url)),
            LookupView::Found(entries) => match layouts(entries, platform).index_of_first(
                AddrLayout::Unknown,
            ) {
                Some(i) => Err(ErrorView::UnknownAddressFamily(family_number(entries[i].family))),
                None => Ok(crate::addr::v4_first(at_port(entries, port))),
            },
        },
    }
}

/// The mathematical content of what [`resolve_addr`] returns.
pub open spec fn resolved_view(result: Result<Vec<SockAddr>, Error>) -> Result<
    Seq<SockAddr>,
    ErrorView,
> {
    match result {
        Ok(addrs) => Ok(addrs@),
        Err(error) => Err(error@),
    }
}

/// The lookup to make for `url`: addresses of any family, for stream sockets.
pub fn lookup_request(url: &str, platform: &Platform) -> (result: Result<LookupRequest, Error>)
    ensures
        match vstd::utf8::encode_utf8(url@).index_of_first(0u8) {
            None => result matches Ok(request) && {
                &&& request.host@ == vstd::utf8::encode_utf8(url@)
                &&& request.hints == (Hints {
                    ai_family: platform.af_unspec,
                    ai_socktype: platform.sock_stream,
                })
            },
            Some(position) => result matches Err(error) && error@ == (ErrorView::ConstructCString {
                position,
                bytes: vstd::utf8::encode_utf8(url@),
            }),
        },
{
    match c_string(url) {
        Ok(host) => Ok(
            LookupRequest {
                host,
                hints: Hints {
                    ai_family: platform.af_unspec,
                    ai_socktype: platform.sock_stream,
                },
            },
        ),
        Err(nul) => Err(Error::ConstructCString(nul)),
    }
}

fn low_bits(family: i32) -> (low: u16)
    ensures
        low == family_number(family),
{
    assert(family as u16 == (family as i64 + 0x1_0000_0000i64) % 0x10000) by (bit_vector);
    #[verifier::truncate]
    (family as u16)
}

fn entry_addr(entry: &AddrEntry, port: u16) -> (addr: SockAddr)
    requires
        entry.addr !is Unread,
    ensures
        addr == entry.at_port(port),
{
    match entry.addr {
        EntryAddr::In(addr) => SockAddr::V4(
            SockAddrIn { sin_port: to_network_order(port), ..addr },
        ),
        EntryAddr::In6(addr) => SockAddr::V6(
            SockAddrIn6 { sin6_port: to_network_order(port), ..addr },
        ),
        EntryAddr::Unread => vstd::pervasive::unreached(),
    }
}

/// Resolves `url` and `port` to the socket addresses to try, given what came of
/// the lookup that [`lookup_request`] asks for. IPv4 addresses come first.
pub fn resolve_addr(
    url: &str,
    port: u16,
    lookup: &Result<Vec<AddrEntry>, LookupError>,
    platform: &Platform,
) -> (result: Result<Vec<SockAddr>, Error>)
    requires
        well_read(lookup_view(*lookup), *platform),
    ensures
        resolved_view(result) == resolution(url@, port, lookup_view(*lookup), *platform),
{
    if let Err(nul) = c_string(url) {
        return Err(Error::ConstructCString(nul));
    }
    let entries: &Vec<AddrEntry> = match lookup {
        Ok(entries) => entries,
        Err(error) => {
            if error.is_timeout() {
                return Err(Error::Timeout);
            }
            return Err(Error::ResolveAddress(url.to_owned()));
        },
    };
    let ghost kinds = layouts(entries@, *platform);
    proof {
        kinds.index_of_first_ensures(AddrLayout::Unknown);
    }
    let mut addrs: Vec<SockAddr> = Vec::new();
    let mut i: usize = 0;
    while i < entries.len()
        invariant
            i <= entries@.len(),
            well_read(LookupView::Found(entries@), *platform),
            lookup_view(*lookup) == LookupView::Found(entries@),
            vstd::utf8::encode_utf8(url@).index_of_first(0u8) is None,
            kinds == layouts(entries@, *platform),
            forall|j: int| 0 <= j < i ==> kinds[j] !is Unknown,
            addrs@ == at_port(entries@, port).take(i as int),
            kinds.index_of_first(AddrLayout::Unknown) matches Some(first) ==> {
                &&& 0 <= first < kinds.len()
                &&& kinds[first] is Unknown
                &&& forall|j: int| 0 <= j < first < kinds.len() ==> kinds[j] !is Unknown
            },
            kinds.index_of_first(AddrLayout::Unknown) is None ==> !kinds.contains(
                AddrLayout::Unknown,
            ),
        decreases entries@.len() - i,
    {
        let entry: AddrEntry = entries[i];
        if addr_layout(entry.family, platform) == AddrLayout::Unknown {
            assert(kinds[i as int] is Unknown);
            return Err(Error::UnknownAddressFamily(low_bits(entry.family)));
        }
        addrs.push(entry_addr(&entry, port));
        assert(at_port(entries@, port).take(i + 1) =~= at_port(entries@, port).take(i as int).push(
            at_port(entries@, port)[i as int],
        ));
        i += 1;
    }
    assert(at_port(entries@, port).take(i as int) =~= at_port(entries@, port));
    Ok(sort_addrs(&addrs))
}

/// A name resolves exactly when it holds no zero byte, its lookup found a list,
/// and every entry of that list is of a known family.
pub proof fn law_resolves_when(url: Seq<char>, port: u16, lookup: LookupView, platform: Platform)
    ensures
        resolution(url, port, lookup, platform) is Ok <==> {
            &&& !vstd::utf8::encode_utf8(url).contains(0u8)
            &&& lookup matches LookupView::Found(entries)
            &&& forall|i: int|
                0 <= i < entries.len() ==> layout_of((#[trigger] entries[i]).family, platform)
                    !is Unknown
        },
{
    vstd::utf8::encode_utf8(url).index_of_first_ensures(0u8);
    if let LookupView::Found(entries) = lookup {
        let kinds = layouts(entries, platform);
        kinds.index_of_first_ensures(AddrLayout::Unknown);
        assert forall|i: int| 0 <= i < entries.len() implies kinds[i] == layout_of(
            (#[trigger] entries[i]).family,
            platform,
        ) by {}
        if !kinds.contains(AddrLayout::Unknown) {
            assert forall|i: int| 0 <= i < entries.len() implies layout_of(
                (#[trigger] entries[i]).family,
                platform,
            ) !is Unknown by {
                assert(kinds[i] == layout_of(entries[i].family, platform));
            }
        }
    }
}

/// The port that an address carries, as bytes in network order.
pub open spec fn port_of(addr: SockAddr) -> [u8; 2] {
    match addr {
        SockAddr::V4(v4) => v4.sin_port,
        SockAddr::V6(v6) => v6.sin6_port,
    }
}

/// Resolving loses no entry and adds none, sets every port to the requested one,
/// and puts no IPv4 address behind an IPv6 address.
pub proof fn law_resolved_addresses(
    url: Seq<char>,
    port: u16,
    entries: Seq<AddrEntry>,
    addrs: Seq<SockAddr>,
    platform: Platform,
)
    requires
        well_read(LookupView::Found(entries), platform),
        resolution(url, port, LookupView::Found(entries), platform) == Ok::<_, ErrorView>(addrs),
    ensures
        addrs.len() == entries.len(),
        addrs.to_multiset() == at_port(entries, port).to_multiset(),
        forall|i: int|
            0 <= i < addrs.len() ==> port_of(#[trigger] addrs[i]) == crate::addr::network_order(
                port,
            ),
        forall|i: int, j: int|
            0 <= i < j < addrs.len() && #[trigger] addrs[j] is V4 ==> #[trigger] addrs[i] is V4,
{
    law_resolves_when(url, port, LookupView::Found(entries), platform);
    assert forall|i: int| 0 <= i < entries.len() implies (#[trigger] entries[i]).addr !is Unread by {
        assert(entries[i].wf(platform));
    }
    let found = at_port(entries, port);
    assert(addrs == crate::addr::v4_first(found));
    crate::addr::law_v4_first_permutes(found);
    assert forall|i: int| 0 <= i < addrs.len() implies port_of(#[trigger] addrs[i])
        == crate::addr::network_order(port) by {
        lemma_sorted_ports(entries, port, i);
    }
    assert forall|i: int, j: int|
        0 <= i < j < addrs.len() && #[trigger] addrs[j] is V4 implies #[trigger] addrs[i] is V4 by {
        crate::addr::law_v4_first_sorted(found, i, j);
    }
}

proof fn lemma_entry_port(entry: AddrEntry, port: u16)
    requires
        entry.addr !is Unread,
    ensures
        port_of(entry.at_port(port)) == crate::addr::network_order(port),
{
}

proof fn lemma_sorted_ports(entries: Seq<AddrEntry>, port: u16, i: int)
    requires
        forall|k: int| 0 <= k < entries.len() ==> (#[trigger] entries[k]).addr !is Unread,
        0 <= i < crate::addr::v4_first(at_port(entries, port)).len(),
    ensures
        port_of(crate::addr::v4_first(at_port(entries, port))[i]) == crate::addr::network_order(
            port,
        ),
{
    let found = at_port(entries, port);
    crate::addr::lemma_v4_first_member(found, i);
    let k = choose|k: int|
        0 <= k < found.len() && found[k] == crate::addr::v4_first(found)[i];
    lemma_entry_port(entries[k], port);
}

/// The family by which an address is described to the system is the one whose
/// layout it has.
pub proof fn law_family_roundtrip(
    info: crate::addr::AddrInfo<'_>,
    value: SockAddr,
    platform: Platform,
)
    requires
        platform.wf(),
        info.describes(value, platform),
    ensures
        value is V4 <==> layout_of(info.kind, platform) is In,
        value is V6 <==> layout_of(info.kind, platform) is In6,
{
}

} // verus!
