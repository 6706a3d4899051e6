//! Where a peer is, as plain numbers.
//!
//! The logic here only ever asks four things of an address: whether two are
//! the same, which of two comes first, whether a host is this machine, and
//! what port a host is reached on. So an address holds the numbers those
//! questions are answered from, and nothing else.

use vstd::prelude::*;

verus! {

/// A machine, by the number it is reached under.
#[derive(Clone, Copy, Debug, PartialEq, Eq, Structural)]
pub enum Host {
    /// The four numbers of an IPv4 address, as they are written.
    V4(u8, u8, u8, u8),
    /// An IPv6 address as one number, most significant segment first.
    V6(u128),
}

impl Host {
    /// The address as one number, in the order addresses of one family sort.
    pub open spec fn number(self) -> int {
        match self {
            Host::V4(a, b, c, d) => ((a * 256 + b) * 256 + c) * 256 + d,
            Host::V6(number) => number as int,
        }
    }

    /// Whether this host sorts strictly before `other`: every IPv4 address
    /// before every IPv6 one, and by number within a family.
    pub open spec fn sorts_before(self, other: Host) -> bool {
        match (self, other) {
            (Host::V4(..), Host::V6(_)) => true,
            (Host::V6(_), Host::V4(..)) => false,
            _ => self.number() < other.number(),
        }
    }

    /// Whether the host is the machine this node runs on: 127.0.0.0/8, or ::1.
    pub open spec fn loopback(self) -> bool {
        match self {
            Host::V4(a, _, _, _) => a == 127,
            Host::V6(number) => number == 1,
        }
    }

    /// The loopback address every machine has.
    pub fn localhost() -> (host: Host)
        ensures
            host == Host::V4(127, 0, 0, 1),
            host.loopback(),
    {
        Host::V4(127, 0, 0, 1)
    }

    /// Whether the host is the machine this node runs on.
    pub fn is_loopback(self) -> (answer: bool)
        ensures
            answer == self.loopback(),
    {
        match self {
            Host::V4(a, _, _, _) => a == 127,
            Host::V6(number) => number == 1,
        }
    }

    /// Whether this host sorts strictly before `other`.
    pub fn is_before(self, other: Host) -> (answer: bool)
        ensures
            answer == self.sorts_before(other),
    {
        match (self, other) {
            (Host::V4(a, b, c, d), Host::V4(e, f, g, h)) => {
                let ours: u64 = ((a as u64 * 256 + b as u64) * 256 + c as u64) * 256 + d as u64;
                let theirs: u64 = ((e as u64 * 256 + f as u64) * 256 + g as u64) * 256 + h as u64;
                ours < theirs
            },
            (Host::V4(..), Host::V6(_)) => true,
            (Host::V6(_), Host::V4(..)) => false,
            (Host::V6(ours), Host::V6(theirs)) => ours < theirs,
        }
    }
}

/// A port on a host, which is what a connection is opened to.
#[derive(Clone, Copy, Debug, PartialEq, Eq, Structural)]
pub struct Address {
    pub host: Host,
    pub port: u16,
    /// The flow an IPv6 address is written with. Nought where there is none.
    pub flow: u32,
    /// The scope an IPv6 address is written with. Nought where there is none.
    pub scope: u32,
}

impl Address {
    /// Whether this address sorts strictly before `other`: by host, by port on
    /// one host, and by flow and then scope on one port.
    pub open spec fn sorts_before(self, other: Address) -> bool {
        if self.host != other.host {
            self.host.sorts_before(other.host)
        } else if self.port != other.port {
            self.port < other.port
        } else if self.flow != other.flow {
            self.flow < other.flow
        } else {
            self.scope < other.scope
        }
    }

    /// A port on a host, with no flow and no scope.
    pub open spec fn plain(host: Host, port: u16) -> Address {
        Address { host, port, flow: 0, scope: 0 }
    }

    pub fn new(host: Host, port: u16) -> (address: Address)
        ensures
            address == Address::plain(host, port),
    {
        Address { host, port, flow: 0, scope: 0 }
    }

    /// Whether this address sorts strictly before `other`.
    pub fn is_before(self, other: Address) -> (answer: bool)
        ensures
            answer == self.sorts_before(other),
    {
        if self.host != other.host {
            self.host.is_before(other.host)
        } else if self.port != other.port {
            self.port < other.port
        } else if self.flow != other.flow {
            self.flow < other.flow
        } else {
            self.scope < other.scope
        }
    }
}

/// Two hosts of which neither sorts before the other are one host.
pub proof fn hosts_sort_totally(a: Host, b: Host)
    ensures
        !(a.sorts_before(b) && b.sorts_before(a)),
        a.sorts_before(b) || b.sorts_before(a) || a == b,
        !a.sorts_before(a),
{
    match (a, b) {
        (Host::V4(a0, a1, a2, a3), Host::V4(b0, b1, b2, b3)) => {
            if a.number() == b.number() {
                assert(a0 == b0 && a1 == b1 && a2 == b2 && a3 == b3);
            }
        },
        _ => {},
    }
}

/// Any two addresses are ordered one way, or are the same address.
pub proof fn addresses_sort_totally(a: Address, b: Address)
    ensures
        !(a.sorts_before(b) && b.sorts_before(a)),
        a.sorts_before(b) || b.sorts_before(a) || a == b,
        !a.sorts_before(a),
{
    hosts_sort_totally(a.host, b.host);
}

/// A set of addresses, each held once.
#[derive(Debug)]
pub struct Addresses {
    held: Vec<Address>,
}

impl View for Addresses {
    type V = Set<Address>;

    closed spec fn view(&self) -> Set<Address> {
        self.held@.to_set()
    }
}

impl Addresses {
    /// No address is held twice, so the count of them is the size of the set.
    pub closed spec fn wf(&self) -> bool {
        self.held@.no_duplicates()
    }

    pub fn new() -> (set: Addresses)
        ensures
            set.wf(),
            set@ == Set::<Address>::empty(),
    {
        let set = Addresses { held: Vec::new() };
        assert(set@ =~= Set::<Address>::empty());
        set
    }

    pub fn len(&self) -> (count: usize)
        requires
            self.wf(),
        ensures
            count == self@.len(),
            self@.finite(),
    {
        proof {
            self.held@.unique_seq_to_set();
            vstd::seq_lib::seq_to_set_is_finite(self.held@);
        }
        self.held.len()
    }

    pub fn is_empty(&self) -> (empty: bool)
        requires
            self.wf(),
        ensures
            empty == (self@ == Set::<Address>::empty()),
    {
        proof {
            if self.held@.len() == 0 {
                assert(self@ =~= Set::<Address>::empty());
            } else {
                assert(self@.contains(self.held@[0]));
            }
        }
        self.held.len() == 0
    }

    pub fn contains(&self, address: Address) -> (found: bool)
        ensures
            found == self@.contains(address),
    {
        let mut at: usize = 0;
        while at < self.held.len()
            invariant
                at <= self.held.len(),
                forall|i: int| 0 <= i < at ==> self.held@[i] != address,
            decreases self.held.len() - at,
        {
            if self.held[at] == address {
                assert(self.held@.to_set().contains(self.held@[at as int]));
                return true;
            }
            at = at + 1;
        }
        false
    }

    /// Adds an address, saying whether it was not there before.
    pub fn insert(&mut self, address: Address) -> (fresh: bool)
        requires
            old(self).wf(),
        ensures
            final(self).wf(),
            fresh == !old(self)@.contains(address),
            final(self)@ == old(self)@.insert(address),
    {
        if self.contains(address) {
            assert(self@ =~= old(self)@.insert(address));
            return false;
        }
        let ghost before = self.held@;
        assert(!before.contains(address));
        self.held.push(address);
        proof {
            assert(self.held@ =~= before.push(address));
            assert forall|i: int, j: int| 0 <= i < j < self.held@.len() implies self.held@[i] != self.held@[j] by {
                if j == before.len() {
                    assert(before.contains(before[i]));
                }
            }
            assert(self@ =~= old(self)@.insert(address)) by {
                assert forall|a: Address| self@.contains(a) == old(self)@.insert(address).contains(a) by {
                    if old(self)@.contains(a) {
                        let i = choose|i: int| 0 <= i < before.len() && before[i] == a;
                        assert(self.held@[i] == a);
                    }
                    if a == address {
                        assert(self.held@[before.len() as int] == a);
                    }
                    if self@.contains(a) && a != address {
                        let i = choose|i: int| 0 <= i < self.held@.len() && self.held@[i] == a;
                        assert(before[i] == a);
                    }
                }
            }
        }
        true
    }
}

impl Default for Addresses {
    fn default() -> (set: Addresses)
        ensures
            set.wf(),
            set@ == Set::<Address>::empty(),
    {
        Addresses::new()
    }
}

/// This machine is every IPv4 address that begins with 127 and the IPv6
/// address that is one, and nothing else.
pub proof fn this_machine_is_known_by_its_address(host: Host, answer: bool)
    requires
        call_ensures(Host::is_loopback, (host,), answer),
    ensures
        answer <==> (host matches Host::V4(127, _, _, _)) || host == Host::V6(1),
{
}

/// IPv4 hosts sort before IPv6 ones, and hosts of one family by the first
/// number in which they differ.
pub proof fn hosts_sort_by_the_first_number_that_differs(one: Host, other: Host, answer: bool)
    requires
        call_ensures(Host::is_before, (one, other), answer),
    ensures
        one is V4 && other is V6 ==> answer,
        one is V6 && other is V4 ==> !answer,
        one == other ==> !answer,
        one matches Host::V6(n) ==> (other matches Host::V6(m) ==> (answer <==> n < m)),
        one matches Host::V4(a, b, c, d) ==> (other matches Host::V4(e, f, g, h) ==> {
            &&& a != e ==> (answer <==> a < e)
            &&& a == e && b != f ==> (answer <==> b < f)
            &&& a == e && b == f && c != g ==> (answer <==> c < g)
            &&& a == e && b == f && c == g ==> (answer <==> d < h)
        }),
{
}

/// Addresses sort by host, then by port, then by what else tells them apart.
pub proof fn addresses_sort_by_host_first(
    one: Address,
    other: Address,
    answer: bool,
    by_host: bool,
)
    requires
        call_ensures(Address::is_before, (one, other), answer),
        call_ensures(Host::is_before, (one.host, other.host), by_host),
    ensures
        one.host != other.host ==> answer == by_host,
        one.host == other.host && one.port != other.port ==> (answer <==> one.port < other.port),
        one.host == other.host && one.port == other.port && one.flow != other.flow ==> (answer
            <==> one.flow < other.flow),
        one.host == other.host && one.port == other.port && one.flow == other.flow ==> (answer
            <==> one.scope < other.scope),
{
}

/// A set of addresses holds what was put in it and nothing else, and says of
/// each whether it was new.
pub proof fn a_set_holds_what_was_put_in_it(
    set: &mut Addresses,
    address: Address,
    fresh: bool,
    other: Address,
    found: bool,
)
    requires
        call_ensures(Addresses::insert, (set, address), fresh),
        call_ensures(Addresses::contains, (&*final(set), other), found),
    ensures
        fresh <==> !old(set)@.contains(address),
        found <==> old(set)@.contains(other) || other == address,
{
}

/// An address made of a host and a port is that host and port, and this machine
/// by name is this machine by address.
pub proof fn an_address_is_its_host_and_port(
    host: Host,
    port: u16,
    address: Address,
    here: Host,
    loopback: bool,
)
    requires
        call_ensures(Address::new, (host, port), address),
        call_ensures(Host::localhost, (), here),
        call_ensures(Host::is_loopback, (here,), loopback),
    ensures
        address.host == host && address.port == port,
        address.flow == 0 && address.scope == 0,
        loopback,
        here == Host::V4(127, 0, 0, 1),
{
}

/// A set starts empty, and grows by one for every address that is new to it.
pub proof fn a_set_grows_by_what_is_new(
    set: &mut Addresses,
    address: Address,
    fresh: bool,
    before: usize,
    after: usize,
    empty: bool,
    first: Addresses,
    none: bool,
)
    requires
        call_ensures(Addresses::len, (&*old(set),), before),
        call_ensures(Addresses::insert, (set, address), fresh),
        call_ensures(Addresses::len, (&*final(set),), after),
        call_ensures(Addresses::is_empty, (&*final(set),), empty),
        call_ensures(Addresses::new, (), first),
        call_ensures(Addresses::is_empty, (&first,), none),
    ensures
        fresh ==> after == before + 1,
        !fresh ==> after == before,
        !empty,
        none,
{
    assert(final(set)@.contains(address));
    if !fresh {
        assert(old(set)@.insert(address) =~= old(set)@);
    }
}

} // verus!
