use vstd::prelude::*;

use crate::interface::InterfaceKey;
use crate::protocol::ipv4::addr::{addr_u32, Ipv4Addr};
use crate::protocol::ipv4::interface::{Ipv4Interface, Ipv4InterfaceView};
use crate::slots::canonical_key;

verus! {

/// The number of set bits of `x`.
pub open spec fn ones(x: u32) -> nat
    decreases x,
{
    if x == 0 {
        0
    } else {
        (x % 2) as nat + ones(x / 2)
    }
}

/// A route: destinations in `network`/`netmask` go through `interface`,
/// to `nexthop` unless that is `0.0.0.0` (directly connected).
#[derive(Debug, Clone, Copy, PartialEq, Eq, Structural)]
pub struct Ipv4Route {
    network: Ipv4Addr,
    netmask: Ipv4Addr,
    nexthop: Ipv4Addr,
    interface: InterfaceKey,
}

/// What an [`Ipv4Route`] holds.
pub struct Ipv4RouteView {
    pub network: Ipv4Addr,
    pub netmask: Ipv4Addr,
    pub nexthop: Ipv4Addr,
    pub interface: InterfaceKey,
}

impl View for Ipv4Route {
    type V = Ipv4RouteView;

    closed spec fn view(&self) -> Ipv4RouteView {
        Ipv4RouteView {
            network: self.network,
            netmask: self.netmask,
            nexthop: self.nexthop,
            interface: self.interface,
        }
    }
}

/// The prefix length of a route: the number of bits set in its netmask.
pub open spec fn route_prefix_len(r: Ipv4Route) -> nat {
    ones(addr_u32(r@.netmask))
}

/// Whether `destination` lies in the route's network.
pub open spec fn route_matches(r: Ipv4Route, destination: Ipv4Addr) -> bool {
    addr_u32(destination) & addr_u32(r@.netmask) == addr_u32(r@.network)
}

/// Among the first `n` routes, route `i` is the one a lookup for
/// `destination` picks: it matches, no matching route has a longer prefix,
/// and no later matching route has as long a prefix.
pub open spec fn is_best_route_within(
    routes: Seq<Ipv4Route>,
    destination: Ipv4Addr,
    i: int,
    n: int,
) -> bool {
    &&& 0 <= i < n <= routes.len()
    &&& route_matches(routes[i], destination)
    &&& forall|j: int|
        0 <= j < n && route_matches(#[trigger] routes[j], destination) ==> route_prefix_len(
            routes[j],
        ) <= route_prefix_len(routes[i])
    &&& forall|j: int|
        i < j < n && route_matches(#[trigger] routes[j], destination) ==> route_prefix_len(
            routes[j],
        ) < route_prefix_len(routes[i])
}

/// Route `i` of `routes` is the one a lookup for `destination` picks.
pub open spec fn is_best_route(routes: Seq<Ipv4Route>, destination: Ipv4Addr, i: int) -> bool {
    is_best_route_within(routes, destination, i, routes.len() as int)
}

/// The route that [`Ipv4RoutingTable::lookup`] picks for `destination`: the
/// best one, if any route matches.
pub open spec fn best_route(routes: Seq<Ipv4Route>, destination: Ipv4Addr) -> Option<Ipv4Route> {
    if exists|i: int| is_best_route(routes, destination, i) {
        Some(routes[choose|i: int| is_best_route(routes, destination, i)])
    } else {
        None
    }
}

/// The interface that the route for `destination` names, where it is
/// registered.
pub open spec fn routed_interface(
    routes: Seq<Ipv4Route>,
    interfaces: Map<u64, Ipv4InterfaceView>,
    destination: Ipv4Addr,
) -> Option<Ipv4InterfaceView> {
    match best_route(routes, destination) {
        None => None,
        Some(route) => {
            let k = canonical_key(route@.interface@);
            if interfaces.dom().contains(k) {
                Some(interfaces[k])
            } else {
                None
            }
        },
    }
}

/// Bytes that agree with a network under a mask, byte by byte, agree as
/// 32-bit numbers too.
proof fn lemma_masked_word(
    d0: u8,
    d1: u8,
    d2: u8,
    d3: u8,
    m0: u8,
    m1: u8,
    m2: u8,
    m3: u8,
    n0: u8,
    n1: u8,
    n2: u8,
    n3: u8,
)
    requires
        d0 & m0 == n0,
        d1 & m1 == n1,
        d2 & m2 == n2,
        d3 & m3 == n3,
    ensures
        ((d0 as int * 0x100_0000 + d1 as int * 0x1_0000 + d2 as int * 0x100 + d3 as int) as u32) & ((m0 as int
            * 0x100_0000 + m1 as int * 0x1_0000 + m2 as int * 0x100 + m3 as int) as u32) == ((n0 as int
            * 0x100_0000 + n1 as int * 0x1_0000 + n2 as int * 0x100 + n3 as int) as u32),
{
    assert(((d0 as int * 0x100_0000 + d1 as int * 0x1_0000 + d2 as int * 0x100 + d3 as int) as u32) & ((m0 as int
        * 0x100_0000 + m1 as int * 0x1_0000 + m2 as int * 0x100 + m3 as int) as u32) == ((n0 as int
        * 0x100_0000 + n1 as int * 0x1_0000 + n2 as int * 0x100 + n3 as int) as u32)) by (bit_vector)
        requires
            d0 & m0 == n0,
            d1 & m1 == n1,
            d2 & m2 == n2,
            d3 & m3 == n3,
    ;
}

/// Once the route of an interface is added (see
/// [`Ipv4RoutingTable::add_interface_route`]), every address of the
/// interface's subnet, the addresses that agree with the interface's
/// address under its netmask, matches that route, so that a lookup for it
/// finds a route.
pub proof fn lemma_interface_route_covers_subnet(
    routes: Seq<Ipv4Route>,
    interface: Ipv4InterfaceView,
    destination: Ipv4Addr,
)
    requires
        routes.len() > 0,
        forall|i: int|
            0 <= i < 4 ==> #[trigger] routes.last()@.network@[i] == (interface.unicast@[i]
                & interface.netmask@[i]),
        routes.last()@.netmask == interface.netmask,
        forall|i: int|
            0 <= i < 4 ==> (#[trigger] destination@[i] & interface.netmask@[i]) == (interface.unicast@[i]
                & interface.netmask@[i]),
    ensures
        route_matches(routes.last(), destination),
        exists|i: int| 0 <= i < routes.len() && route_matches(#[trigger] routes[i], destination),
{
    let n = routes.last()@.network;
    let m = interface.netmask;
    let d = destination;
    assert(n@[0] == d@[0] & m@[0]);
    assert(n@[1] == d@[1] & m@[1]);
    assert(n@[2] == d@[2] & m@[2]);
    assert(n@[3] == d@[3] & m@[3]);
    lemma_masked_word(d@[0], d@[1], d@[2], d@[3], m@[0], m@[1], m@[2], m@[3], n@[0], n@[1], n@[2], n@[3]);
    assert(route_matches(routes[routes.len() - 1], destination));
}

/// What [`Ipv4RoutingTable::lookup`] gives is [`best_route`].
pub proof fn lemma_lookup_is_best(routes: Seq<Ipv4Route>, destination: Ipv4Addr, r: Option<Ipv4Route>)
    requires
        r is None <==> forall|i: int| 0 <= i < routes.len() ==> !route_matches(#[trigger] routes[i], destination),
        r matches Some(route) ==> exists|i: int|
            is_best_route(routes, destination, i) && #[trigger] routes[i] == route,
    ensures
        r == best_route(routes, destination),
{
    match r {
        Some(route) => {
            let i = choose|i: int| is_best_route(routes, destination, i) && #[trigger] routes[i] == route;
            lemma_best_route_unique(routes, destination, i);
        },
        None => {
            if exists|i: int| is_best_route(routes, destination, i) {
                let i = choose|i: int| is_best_route(routes, destination, i);
                assert(route_matches(routes[i], destination));
            }
        },
    }
}

/// At most one route is the best for a destination.
pub proof fn lemma_best_route_unique(routes: Seq<Ipv4Route>, destination: Ipv4Addr, i: int)
    requires
        is_best_route(routes, destination, i),
    ensures
        forall|j: int| #[trigger] is_best_route(routes, destination, j) ==> j == i,
{
    assert forall|j: int| #[trigger] is_best_route(routes, destination, j) implies j == i by {
        assert(route_prefix_len(routes[j]) <= route_prefix_len(routes[i]));
        assert(route_prefix_len(routes[i]) <= route_prefix_len(routes[j]));
    }
}

impl Ipv4Route {
    /// A route is determined by what it holds.
    pub proof fn lemma_view(self, other: Ipv4Route)
        ensures
            self@ == other@ ==> self == other,
    {
    }

    pub fn new(network: Ipv4Addr, netmask: Ipv4Addr, nexthop: Ipv4Addr, interface: InterfaceKey) -> (r:
        Ipv4Route)
        ensures
            r@ == (Ipv4RouteView { network, netmask, nexthop, interface }),
    {
        Ipv4Route { network, netmask, nexthop, interface }
    }

    pub fn network(&self) -> (r: Ipv4Addr)
        ensures
            r == self@.network,
    {
        self.network
    }

    pub fn netmask(&self) -> (r: Ipv4Addr)
        ensures
            r == self@.netmask,
    {
        self.netmask
    }

    pub fn nexthop(&self) -> (r: Ipv4Addr)
        ensures
            r == self@.nexthop,
    {
        self.nexthop
    }

    pub fn interface(&self) -> (r: InterfaceKey)
        ensures
            r == self@.interface,
    {
        self.interface
    }

    /// The number of bits set in the netmask.
    fn prefix_len(self) -> (r: u32)
        ensures
            r == route_prefix_len(self),
    {
        let mut x = self.netmask.to_u32();
        let mut count: u32 = 0;
        proof {
            lemma_ones_bound(x);
        }
        while x != 0
            invariant
                count + ones(x) == ones(addr_u32(self.netmask)),
                ones(addr_u32(self.netmask)) <= 32,
            decreases x,
        {
            assert(ones(x) == (x % 2) as nat + ones(x / 2));
            count = count + x % 2;
            x = x / 2;
        }
        count
    }

    /// Whether `destination` lies in this route's network.
    fn matches(self, destination: Ipv4Addr) -> (r: bool)
        ensures
            r == route_matches(self, destination),
    {
        destination.to_u32() & self.netmask.to_u32() == self.network.to_u32()
    }
}

proof fn lemma_ones_bound(x: u32)
    ensures
        ones(x) <= 32,
{
    vstd::arithmetic::power2::lemma2_to64();
    lemma_ones_bits(x, 32);
}

proof fn lemma_ones_bits(x: u32, n: nat)
    requires
        n <= 32,
        (x as int) < vstd::arithmetic::power2::pow2(n) as int,
    ensures
        ones(x) <= n,
    decreases n,
{
    vstd::arithmetic::power2::lemma2_to64();
    if x == 0 {
    } else {
        assert(n > 0) by {
            if n == 0 {
                assert(vstd::arithmetic::power2::pow2(0) == 1);
            }
        }
        vstd::arithmetic::power2::lemma_pow2_unfold(n);
        lemma_ones_bits(x / 2, (n - 1) as nat);
    }
}

/// The table of IPv4 routes, in the order they were added.
#[derive(Debug)]
pub struct Ipv4RoutingTable {
    routes: Vec<Ipv4Route>,
}

impl View for Ipv4RoutingTable {
    type V = Seq<Ipv4Route>;

    closed spec fn view(&self) -> Seq<Ipv4Route> {
        self.routes@
    }
}

impl Ipv4RoutingTable {
    /// An empty table.
    pub fn new() -> (r: Ipv4RoutingTable)
        ensures
            r@ == Seq::<Ipv4Route>::empty(),
    {
        Ipv4RoutingTable { routes: Vec::new() }
    }

    /// Adds the route to the network that `interface` is directly on.
    pub fn add_interface_route(&mut self, key: InterfaceKey, interface: Ipv4Interface)
        ensures
            final(self)@.len() == old(self)@.len() + 1,
            final(self)@.subrange(0, old(self)@.len() as int) == old(self)@,
            ({
                let r = final(self)@.last()@;
                &&& forall|i: int|
                    0 <= i < 4 ==> #[trigger] r.network@[i] == (interface@.unicast@[i]
                        & interface@.netmask@[i])
                &&& r.netmask == interface@.netmask
                &&& r.nexthop@ == seq![0u8, 0, 0, 0]
                &&& r.interface == key
            }),
    {
        let u = interface.unicast().octets();
        let m = interface.netmask().octets();
        let network = Ipv4Addr::from_octets(u[0] & m[0], u[1] & m[1], u[2] & m[2], u[3] & m[3]);
        self.add(Ipv4Route::new(network, interface.netmask(), Ipv4Addr::any(), key));
    }

    /// Adds the default route: every destination through `gateway` on `interface`.
    pub fn set_default_gateway(&mut self, interface: InterfaceKey, gateway: Ipv4Addr)
        ensures
            final(self)@.len() == old(self)@.len() + 1,
            final(self)@.subrange(0, old(self)@.len() as int) == old(self)@,
            ({
                let r = final(self)@.last()@;
                &&& r.network@ == seq![0u8, 0, 0, 0]
                &&& r.netmask@ == seq![0u8, 0, 0, 0]
                &&& r.nexthop == gateway
                &&& r.interface == interface
            }),
    {
        self.add(Ipv4Route::new(Ipv4Addr::any(), Ipv4Addr::any(), gateway, interface));
    }

    /// Appends `route`.
    pub fn add(&mut self, route: Ipv4Route)
        ensures
            final(self)@ == old(self)@.push(route),
    {
        self.routes.push(route);
    }

    /// The route for `destination`: among the matching routes, one with the
    /// longest prefix, the last added if several tie.
    pub fn lookup(&self, destination: Ipv4Addr) -> (r: Option<Ipv4Route>)
        ensures
            r is None <==> forall|i: int|
                0 <= i < self@.len() ==> !route_matches(#[trigger] self@[i], destination),
            r matches Some(route) ==> exists|i: int|
                is_best_route(self@, destination, i) && #[trigger] self@[i] == route,
    {
        let mut best: Option<usize> = None;
        let mut best_len: u32 = 0;
        let mut i: usize = 0;
        while i < self.routes.len()
            invariant
                i <= self.routes@.len(),
                best is None <==> forall|j: int|
                    0 <= j < i ==> !route_matches(#[trigger] self.routes@[j], destination),
                best matches Some(b) ==> is_best_route_within(
                    self.routes@,
                    destination,
                    b as int,
                    i as int,
                ) && best_len == route_prefix_len(self.routes@[b as int]),
            decreases self.routes@.len() - i,
        {
            let route = self.routes[i];
            if route.matches(destination) {
                let len = route.prefix_len();
                let take = match best {
                    None => true,
                    Some(_) => len >= best_len,
                };
                if take {
                    best = Some(i);
                    best_len = len;
                }
            }
            i = i + 1;
        }
        assert(i == self.routes@.len());
        match best {
            Some(b) => {
                assert(is_best_route(self@, destination, b as int));
                Some(self.routes[b])
            },
            None => None,
        }
    }
}

} // verus!
