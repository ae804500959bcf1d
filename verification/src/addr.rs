//! Socket addresses, and the order in which they are tried.
use std::cmp::Ordering;
use vstd::prelude::*;

use crate::platform::Platform;

verus! {

/// An IPv4 socket address. Port and address are bytes in network order.
#[derive(Clone, Copy, Debug, PartialEq, Eq)]
pub struct SockAddrIn {
    pub sin_family: u16,
    pub sin_port: [u8; 2],
    pub sin_addr: [u8; 4],
    pub sin_zero: [u8; 8],
}

/// An IPv6 socket address. Port and address are bytes in network order.
#[derive(Clone, Copy, Debug, PartialEq, Eq)]
pub struct SockAddrIn6 {
    pub sin6_family: u16,
    pub sin6_port: [u8; 2],
    pub sin6_flowinfo: u32,
    pub sin6_addr: [u8; 16],
    pub sin6_scope_id: u32,
}

/// A socket address. To `==` and `<` only its kind matters.
#[derive(Clone, Copy, Debug)]
pub enum SockAddr {
    V4(SockAddrIn),
    V6(SockAddrIn6),
}

/// `port` in network order: the high byte comes first.
pub open spec fn network_order(port: u16) -> [u8; 2] {
    [(port / 256) as u8, (port % 256) as u8]
}

/// Puts `port` into network order.
pub fn to_network_order(port: u16) -> (bytes: [u8; 2])
    ensures
        bytes == network_order(port),
{
    [(port / 256) as u8, (port % 256) as u8]
}

impl SockAddr {
    /// How the two kinds of address compare: an IPv4 address comes before an
    /// IPv6 address, and two addresses of one kind are not told apart.
    pub open spec fn order(self, other: SockAddr) -> Ordering {
        match (self, other) {
            (SockAddr::V4(_), SockAddr::V6(_)) => Ordering::Less,
            (SockAddr::V6(_), SockAddr::V4(_)) => Ordering::Greater,
            _ => Ordering::Equal,
        }
    }

    /// The family that stands for this kind of address.
    pub open spec fn family(self, platform: Platform) -> i32 {
        match self {
            SockAddr::V4(_) => platform.af_inet,
            SockAddr::V6(_) => platform.af_inet6,
        }
    }

    /// The size of this kind of address in the memory of the system.
    pub open spec fn size(self, platform: Platform) -> u32 {
        match self {
            SockAddr::V4(_) => platform.sockaddr_in_len,
            SockAddr::V6(_) => platform.sockaddr_in6_len,
        }
    }

    /// Compares two addresses by their kind: IPv4 comes first.
    pub fn cmp(&self, other: &SockAddr) -> (order: Ordering)
        ensures
            order == self.order(*other),
    {
        match (self, other) {
            (SockAddr::V4(_), SockAddr::V6(_)) => Ordering::Less,
            (SockAddr::V6(_), SockAddr::V4(_)) => Ordering::Greater,
            _ => Ordering::Equal,
        }
    }
}

impl PartialEq for SockAddr {
    fn eq(&self, other: &Self) -> (same: bool) {
        matches!(
            (self, other),
            (SockAddr::V4(_), SockAddr::V4(_)) | (SockAddr::V6(_), SockAddr::V6(_))
        )
    }
}

impl vstd::std_specs::cmp::PartialEqSpecImpl for SockAddr {
    open spec fn obeys_eq_spec() -> bool {
        true
    }

    open spec fn eq_spec(&self, other: &Self) -> bool {
        self is V4 <==> other is V4
    }
}

impl Eq for SockAddr {
}

impl PartialOrd for SockAddr {
    fn partial_cmp(&self, other: &Self) -> (order: Option<Ordering>) {
        Some(self.cmp(other))
    }
}

impl vstd::std_specs::cmp::PartialOrdSpecImpl for SockAddr {
    open spec fn obeys_partial_cmp_spec() -> bool {
        true
    }

    open spec fn partial_cmp_spec(&self, other: &Self) -> Option<Ordering> {
        Some(self.order(*other))
    }
}

/// Selects the IPv4 addresses.
pub open spec fn only_v4() -> spec_fn(SockAddr) -> bool {
    |addr: SockAddr| addr is V4
}

/// Selects the IPv6 addresses.
pub open spec fn only_v6() -> spec_fn(SockAddr) -> bool {
    |addr: SockAddr| addr is V6
}

/// The IPv4 addresses of `addrs`, followed by its IPv6 addresses, both in the
/// order in which `addrs` holds them.
pub open spec fn v4_first(addrs: Seq<SockAddr>) -> Seq<SockAddr> {
    addrs.filter(only_v4()) + addrs.filter(only_v6())
}

/// Sorts addresses so that IPv4 comes first; the sort is stable.
pub fn sort_addrs(addrs: &Vec<SockAddr>) -> (sorted: Vec<SockAddr>)
    ensures
        sorted@ == v4_first(addrs@),
{
    let mut sorted: Vec<SockAddr> = Vec::new();
    let mut v6: Vec<SockAddr> = Vec::new();
    let mut i: usize = 0;
    assert(addrs@.take(0) =~= Seq::empty());
    proof {
        reveal(Seq::filter);
    }
    while i < addrs.len()
        invariant
            i <= addrs@.len(),
            sorted@ == addrs@.take(i as int).filter(only_v4()),
            v6@ == addrs@.take(i as int).filter(only_v6()),
        decreases addrs@.len() - i,
    {
        let addr = addrs[i];
        proof {
            reveal(Seq::filter);
            assert(addrs@.take(i + 1).drop_last() =~= addrs@.take(i as int));
            assert(addrs@.take(i + 1).last() == addr);
        }
        match addr {
            SockAddr::V4(_) => sorted.push(addr),
            SockAddr::V6(_) => v6.push(addr),
        }
        i += 1;
    }
    assert(addrs@.take(i as int) =~= addrs@);
    sorted.append(&mut v6);
    sorted
}

/// How an address is handed to the system: its family, itself, and its size.
#[derive(Clone, Copy, Debug)]
pub struct AddrInfo<'a> {
    pub kind: i32,
    pub addr: &'a SockAddr,
    pub addr_len: u32,
}

impl<'a> AddrInfo<'a> {
    /// `value` is described, by the family and the size of its kind of address.
    pub open spec fn describes(self, value: SockAddr, platform: Platform) -> bool {
        &&& *self.addr == value
        &&& self.kind == value.family(platform)
        &&& self.addr_len == value.size(platform)
    }

    /// Describes `value` to the system that `platform` stands for.
    pub fn from(value: &'a SockAddr, platform: &Platform) -> (info: AddrInfo<'a>)
        ensures
            info.describes(*value, *platform),
    {
        let (kind, addr_len): (i32, u32) = match value {
            SockAddr::V4(_) => (platform.af_inet, platform.sockaddr_in_len),
            SockAddr::V6(_) => (platform.af_inet6, platform.sockaddr_in6_len),
        };
        AddrInfo { kind, addr: value, addr_len }
    }
}

/// The order on addresses is a total preorder, and two addresses are equal to
/// `==` exactly when it does not tell them apart.
pub proof fn law_order(a: SockAddr, b: SockAddr, c: SockAddr)
    ensures
        a.order(a) == Ordering::Equal,
        a.order(b) == Ordering::Less <==> b.order(a) == Ordering::Greater,
        a.order(b) == Ordering::Equal <==> b.order(a) == Ordering::Equal,
        a.order(b) != Ordering::Greater && b.order(c) != Ordering::Greater ==> a.order(c)
            != Ordering::Greater,
        vstd::std_specs::cmp::PartialEqSpec::eq_spec(&a, &b) <==> a.order(b) == Ordering::Equal,
{
}

/// Putting IPv4 first sorts: no address stands behind one that it precedes in
/// the order.
pub proof fn law_v4_first_sorted(addrs: Seq<SockAddr>, i: int, j: int)
    requires
        0 <= i < j < v4_first(addrs).len(),
    ensures
        v4_first(addrs)[i].order(v4_first(addrs)[j]) != Ordering::Greater,
{
    broadcast use vstd::seq_lib::group_filter_ensures;

    let v4 = addrs.filter(only_v4());
    let v6 = addrs.filter(only_v6());
    if j < v4.len() {
        assert(only_v4()(v4[j]));
        assert(only_v4()(v4[i]));
    } else if i < v4.len() {
        assert(only_v4()(v4[i]));
    } else {
        assert(only_v6()(v6[i - v4.len()]));
        assert(only_v6()(v6[j - v4.len()]));
    }
}

/// Putting IPv4 first keeps addresses of one kind in their places among each
/// other.
pub proof fn law_v4_first_stable(addrs: Seq<SockAddr>)
    ensures
        v4_first(addrs).filter(only_v4()) == addrs.filter(only_v4()),
        v4_first(addrs).filter(only_v6()) == addrs.filter(only_v6()),
{
    broadcast use vstd::seq_lib::group_filter_ensures;

    let v4 = addrs.filter(only_v4());
    let v6 = addrs.filter(only_v6());
    lemma_filter_same(v4, only_v4());
    lemma_filter_same(v6, only_v6());
    lemma_filter_none(v4, only_v6());
    lemma_filter_none(v6, only_v4());
    Seq::filter_distributes_over_add(v4, v6, only_v4());
    Seq::filter_distributes_over_add(v4, v6, only_v6());
    assert(v4 + Seq::empty() =~= v4);
    assert(Seq::empty() + v6 =~= v6);
}

/// Putting IPv4 first keeps every address, as often as it occurs.
pub proof fn law_v4_first_permutes(addrs: Seq<SockAddr>)
    ensures
        v4_first(addrs).to_multiset() == addrs.to_multiset(),
        v4_first(addrs).len() == addrs.len(),
    decreases addrs.len(),
{
    broadcast use vstd::seq_lib::group_to_multiset_ensures;

    reveal(Seq::filter);
    vstd::seq_lib::lemma_multiset_commutative(
        addrs.filter(only_v4()),
        addrs.filter(only_v6()),
    );
    if addrs.len() == 0 {
        assert(v4_first(addrs) =~= addrs);
    } else {
        let rest = addrs.drop_last();
        law_v4_first_permutes(rest);
        vstd::seq_lib::lemma_multiset_commutative(
            rest.filter(only_v4()),
            rest.filter(only_v6()),
        );
        assert(addrs =~= rest.push(addrs.last()));
        assert(v4_first(addrs).to_multiset() =~= addrs.to_multiset());
    }
}

/// An address that is sorted was among those given.
pub proof fn lemma_v4_first_member(addrs: Seq<SockAddr>, i: int)
    requires
        0 <= i < v4_first(addrs).len(),
    ensures
        addrs.contains(v4_first(addrs)[i]),
{
    law_v4_first_permutes(addrs);
    addrs.to_multiset_ensures();
    v4_first(addrs).to_multiset_ensures();
    assert(v4_first(addrs).contains(v4_first(addrs)[i]));
    assert(addrs.to_multiset().count(v4_first(addrs)[i]) > 0);
}

proof fn lemma_filter_same(addrs: Seq<SockAddr>, keep: spec_fn(SockAddr) -> bool)
    requires
        forall|i: int| 0 <= i < addrs.len() ==> keep(#[trigger] addrs[i]),
    ensures
        addrs.filter(keep) == addrs,
    decreases addrs.len(),
{
    reveal(Seq::filter);
    if addrs.len() > 0 {
        lemma_filter_same(addrs.drop_last(), keep);
        assert(addrs.drop_last().push(addrs.last()) =~= addrs);
    }
}

proof fn lemma_filter_none(addrs: Seq<SockAddr>, keep: spec_fn(SockAddr) -> bool)
    requires
        forall|i: int| 0 <= i < addrs.len() ==> !keep(#[trigger] addrs[i]),
    ensures
        addrs.filter(keep) == Seq::<SockAddr>::empty(),
    decreases addrs.len(),
{
    reveal(Seq::filter);
    if addrs.len() > 0 {
        lemma_filter_none(addrs.drop_last(), keep);
    }
}

/// The bytes of a port in network order give it back, the first being the more
/// significant one.
pub proof fn law_network_order(port: u16, bytes: [u8; 2])
    requires
        call_ensures(to_network_order, (port,), bytes),
    ensures
        bytes[0] * 256 + bytes[1] == port,
{
}

/// IPv4 comes before IPv6, and nothing else of an address matters to its place.
pub proof fn law_compares(
    a: SockAddr,
    b: SockAddr,
    order: Ordering,
    partial: Option<Ordering>,
    same: bool,
)
    requires
        call_ensures(SockAddr::cmp, (&a, &b), order),
        call_ensures(SockAddr::partial_cmp, (&a, &b), partial),
        call_ensures(SockAddr::eq, (&a, &b), same),
    ensures
        a is V4 && b is V6 ==> order == Ordering::Less,
        a is V6 && b is V4 ==> order == Ordering::Greater,
        a is V4 && b is V4 ==> order == Ordering::Equal,
        a is V6 && b is V6 ==> order == Ordering::Equal,
        partial == Some(order),
        same <==> (a is V4 <==> b is V4),
{
}

/// An address is described as it is, by the family and the size of its kind.
pub proof fn law_addr_info(value: SockAddr, platform: Platform, info: AddrInfo<'_>)
    requires
        call_ensures(AddrInfo::from, (&value, &platform), info),
    ensures
        *info.addr == value,
        value is V4 ==> info.kind == platform.af_inet && info.addr_len == platform.sockaddr_in_len,
        value is V6 ==> info.kind == platform.af_inet6 && info.addr_len
            == platform.sockaddr_in6_len,
{
}

/// `places` tells where each address of `sorted` stood in `addrs`: all places occur,
/// each of them once, those of IPv4 addresses first, and otherwise in order.
pub open spec fn sorts(addrs: Seq<SockAddr>, sorted: Seq<SockAddr>, places: Seq<int>) -> bool {
    &&& sorted.len() == addrs.len()
    &&& places.len() == addrs.len()
    &&& forall|i: int|
        0 <= i < places.len() ==> 0 <= (#[trigger] places[i]) < addrs.len() && sorted[i]
            == addrs[places[i]]
    &&& forall|k: int| 0 <= k < addrs.len() ==> #[trigger] places.contains(k)
    &&& forall|i: int, j: int|
        #![trigger places[i], places[j]]
        0 <= i < j < places.len() ==> {
            &&& sorted[j] is V4 ==> sorted[i] is V4
            &&& (sorted[i] is V4 <==> sorted[j] is V4) ==> places[i] < places[j]
        }
}

/// Where the addresses stood that `keep` selects.
proof fn lemma_filter_places(addrs: Seq<SockAddr>, keep: spec_fn(SockAddr) -> bool) -> (places: Seq<
    int,
>)
    ensures
        places.len() == addrs.filter(keep).len(),
        forall|i: int|
            0 <= i < places.len() ==> {
                &&& 0 <= (#[trigger] places[i]) < addrs.len()
                &&& addrs.filter(keep)[i] == addrs[places[i]]
                &&& keep(addrs[places[i]])
            },
        forall|k: int|
            0 <= k < addrs.len() && keep(addrs[k]) ==> #[trigger] places.contains(k),
        forall|i: int, j: int|
            #![trigger places[i], places[j]]
            0 <= i < j < places.len() ==> places[i] < places[j],
    decreases addrs.len(),
{
    reveal(Seq::filter);
    if addrs.len() == 0 {
        Seq::empty()
    } else {
        let rest = addrs.drop_last();
        let before = lemma_filter_places(rest, keep);
        if keep(addrs.last()) {
            let places = before.push(addrs.len() - 1);
            assert forall|k: int| 0 <= k < addrs.len() && keep(addrs[k]) implies #[trigger]
                places.contains(k) by {
                if k < rest.len() {
                    assert(rest[k] == addrs[k]);
                    assert(before.contains(k));
                    let i = choose|i: int| 0 <= i < before.len() && before[i] == k;
                    assert(places[i] == k);
                } else {
                    assert(places[before.len() as int] == k);
                }
            }
            places
        } else {
            assert forall|k: int| 0 <= k < addrs.len() && keep(addrs[k]) implies #[trigger]
                before.contains(k) by {
                assert(rest[k] == addrs[k]);
            }
            before
        }
    }
}

pub(crate) proof fn lemma_sorts(addrs: Seq<SockAddr>) -> (places: Seq<int>)
    ensures
        sorts(addrs, v4_first(addrs), places),
{
    law_v4_first_permutes(addrs);
    let v4 = lemma_filter_places(addrs, only_v4());
    let v6 = lemma_filter_places(addrs, only_v6());
    let places = v4 + v6;
    assert forall|k: int| 0 <= k < addrs.len() implies #[trigger] places.contains(k) by {
        if addrs[k] is V4 {
            assert(v4.contains(k));
            let i = choose|i: int| 0 <= i < v4.len() && v4[i] == k;
            assert(places[i] == k);
        } else {
            assert(v6.contains(k));
            let i = choose|i: int| 0 <= i < v6.len() && v6[i] == k;
            assert(places[v4.len() + i] == k);
        }
    }
    assert forall|i: int| 0 <= i < places.len() implies 0 <= (#[trigger] places[i]) < addrs.len()
        && v4_first(addrs)[i] == addrs[places[i]] by {
        if i < v4.len() {
            assert(places[i] == v4[i]);
        } else {
            assert(places[i] == v6[i - v4.len()]);
        }
    }
    assert forall|i: int, j: int|
        #![trigger places[i], places[j]]
        0 <= i < j < places.len() implies {
        &&& v4_first(addrs)[j] is V4 ==> v4_first(addrs)[i] is V4
        &&& (v4_first(addrs)[i] is V4 <==> v4_first(addrs)[j] is V4) ==> places[i] < places[j]
    } by {
        if j < v4.len() {
            assert(only_v4()(addrs[v4[i]]) && only_v4()(addrs[v4[j]]));
        } else if i < v4.len() {
            assert(only_v4()(addrs[v4[i]]) && only_v6()(addrs[v6[j - v4.len()]]));
        } else {
            assert(only_v6()(addrs[v6[i - v4.len()]]) && only_v6()(addrs[v6[j - v4.len()]]));
            assert(v6[i - v4.len()] < v6[j - v4.len()]);
        }
    }
    places
}

/// Sorting keeps every address, puts IPv4 first, and leaves addresses of one kind
/// in their order. The result tells where each address stood.
pub proof fn law_sort_addrs(addrs: Vec<SockAddr>, sorted: Vec<SockAddr>) -> (places: Seq<int>)
    requires
        call_ensures(sort_addrs, (&addrs,), sorted),
    ensures
        sorts(addrs@, sorted@, places),
{
    lemma_sorts(addrs@)
}

} // verus!
