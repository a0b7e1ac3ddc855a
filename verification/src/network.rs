use vstd::prelude::*;
use crate::address::Ipv4Address;

verus! {

/// Network interface information
#[derive(Debug)]
pub struct NetworkInterface {
    /// Interface name (e.g., "eth0", "wlan0")
    pub name: String,
    /// IPv4 address assigned to this interface
    pub ip: Ipv4Address,
    /// Network mask
    pub netmask: Ipv4Address,
    /// Broadcast address for this network
    pub broadcast: Ipv4Address,
}

/// An interface as a mathematical value: name, address, netmask, broadcast address.
pub type InterfaceModel = (Seq<char>, Ipv4Address, Ipv4Address, Ipv4Address);

impl NetworkInterface {
    /// The interface as a mathematical value.
    pub open spec fn model(&self) -> InterfaceModel {
        (self.name@, self.ip, self.netmask, self.broadcast)
    }
}

impl Clone for NetworkInterface {
    /// A copy of the interface.
    fn clone(&self) -> (r: Self)
        ensures
            r.model() == self.model(),
    {
        NetworkInterface {
            name: self.name.clone(),
            ip: self.ip,
            netmask: self.netmask,
            broadcast: self.broadcast,
        }
    }
}

/// The IPv4 configuration of an address of the system: address, netmask and, where
/// the system gives one, the broadcast address.
#[derive(Debug, Clone, Copy, PartialEq, Eq, Structural)]
pub struct Ipv4Config {
    /// The IPv4 address.
    pub ip: Ipv4Address,
    /// The netmask.
    pub netmask: Ipv4Address,
    /// The broadcast address the system reports, if any.
    pub broadcast: Option<Ipv4Address>,
}

/// One address of an interface of the system, as the system lists it.
#[derive(Debug)]
pub struct SystemInterface {
    /// The interface name.
    pub name: String,
    /// The IPv4 configuration; `None` for an address of another family.
    pub ipv4: Option<Ipv4Config>,
}

/// The broadcast address of the network of `ip` under `netmask`: all host bits set.
pub open spec fn spec_broadcast(ip: Ipv4Address, netmask: Ipv4Address) -> Ipv4Address {
    Ipv4Address { bits: ip.bits | !netmask.bits }
}

/// Calculate the broadcast address for a given IP and netmask: the address with
/// every host bit (every bit that the netmask leaves clear) set to 1.
pub fn calculate_broadcast(ip: Ipv4Address, netmask: Ipv4Address) -> (r: Ipv4Address)
    ensures
        r == spec_broadcast(ip, netmask),
{
    Ipv4Address { bits: ip.bits | !netmask.bits }
}

/// The broadcast address lies in the network of the address it was computed from,
/// and every host bit of it is set.
pub proof fn lemma_broadcast_in_network(ip: Ipv4Address, netmask: Ipv4Address)
    ensures
        spec_broadcast(ip, netmask).bits & netmask.bits == ip.bits & netmask.bits,
        spec_broadcast(ip, netmask).bits | netmask.bits == 0xffff_ffffu32,
        spec_broadcast(ip, netmask).bits | ip.bits == spec_broadcast(ip, netmask).bits,
{
    let a = ip.bits;
    let m = netmask.bits;
    assert((a | !m) & m == a & m) by (bit_vector);
    assert((a | !m) | m == 0xffff_ffffu32) by (bit_vector);
    assert((a | !m) | a == a | !m) by (bit_vector);
}

/// Whether `ip` is an IPv4 loopback address (in 127.0.0.0/8).
pub open spec fn is_loopback_ipv4(ip: Ipv4Address) -> bool {
    ip.bits / 0x100_0000 == 127
}

/// The interface that a system address gives: its broadcast address is the one the
/// system reports, or else the one computed from address and netmask.
pub open spec fn interface_of(name: Seq<char>, c: Ipv4Config) -> InterfaceModel {
    (
        name,
        c.ip,
        c.netmask,
        match c.broadcast {
            Some(b) => b,
            None => spec_broadcast(c.ip, c.netmask),
        },
    )
}

/// A system address as a mathematical value.
pub open spec fn system_model(s: SystemInterface) -> (Seq<char>, Option<Ipv4Config>) {
    (s.name@, s.ipv4)
}

/// The interfaces that the IPv4 system addresses give, in order, keeping the
/// loopback ones where `loopback` holds and the others where it does not.
pub open spec fn spec_select_interfaces(
    sys: Seq<(Seq<char>, Option<Ipv4Config>)>,
    loopback: bool,
) -> Seq<InterfaceModel>
    decreases sys.len(),
{
    if sys.len() == 0 {
        seq![]
    } else {
        let rest = spec_select_interfaces(sys.drop_last(), loopback);
        match sys.last().1 {
            Some(c) => if is_loopback_ipv4(c.ip) == loopback {
                rest.push(interface_of(sys.last().0, c))
            } else {
                rest
            },
            None => rest,
        }
    }
}

/// Whether `ip` is a loopback address.
fn is_loopback(ip: Ipv4Address) -> (r: bool)
    ensures
        r == is_loopback_ipv4(ip),
{
    ip.bits / 0x100_0000 == 127
}

/// The interfaces among the system's addresses that are IPv4 and, as `loopback` asks,
/// loopback or not.
fn select_interfaces(system: &Vec<SystemInterface>, loopback: bool) -> (r: Vec<NetworkInterface>)
    ensures
        r@.map_values(|n: NetworkInterface| n.model()) == spec_select_interfaces(
            system@.map_values(|s: SystemInterface| system_model(s)),
            loopback,
        ),
{
    let ghost sys = system@.map_values(|s: SystemInterface| system_model(s));
    let mut out: Vec<NetworkInterface> = Vec::new();
    let mut i: usize = 0;
    while i < system.len()
        invariant
            i <= system@.len(),
            sys == system@.map_values(|s: SystemInterface| system_model(s)),
            out@.map_values(|n: NetworkInterface| n.model()) == spec_select_interfaces(
                sys.take(i as int),
                loopback,
            ),
        decreases system@.len() - i,
    {
        let entry = &system[i];
        assert(sys.take(i + 1).drop_last() =~= sys.take(i as int));
        assert(sys.take(i + 1).last() == system_model(system@[i as int]));
        let ghost before = out@.map_values(|n: NetworkInterface| n.model());
        match entry.ipv4 {
            Some(c) => {
                if is_loopback(c.ip) == loopback {
                    let broadcast = match c.broadcast {
                        Some(b) => b,
                        None => calculate_broadcast(c.ip, c.netmask),
                    };
                    out.push(
                        NetworkInterface {
                            name: entry.name.clone(),
                            ip: c.ip,
                            netmask: c.netmask,
                            broadcast,
                        },
                    );
                    assert(out@.map_values(|n: NetworkInterface| n.model()) =~= before.push(
                        interface_of(entry.name@, c),
                    ));
                }
            },
            None => {},
        }
        i = i + 1;
    }
    assert(sys.take(i as int) =~= sys);
    out
}

/// The non-loopback IPv4 interfaces among the system's addresses, in the order given.
pub fn network_interfaces_from(system: &Vec<SystemInterface>) -> (r: Vec<NetworkInterface>)
    ensures
        r@.map_values(|n: NetworkInterface| n.model()) == spec_select_interfaces(
            system@.map_values(|s: SystemInterface| system_model(s)),
            false,
        ),
{
    select_interfaces(system, false)
}

/// The loopback IPv4 interfaces among the system's addresses, in the order given.
pub fn loopback_interfaces_from(system: &Vec<SystemInterface>) -> (r: Vec<NetworkInterface>)
    ensures
        r@.map_values(|n: NetworkInterface| n.model()) == spec_select_interfaces(
            system@.map_values(|s: SystemInterface| system_model(s)),
            true,
        ),
{
    select_interfaces(system, true)
}


/// The interfaces selected from the system's addresses are, in order, those made
/// from the IPv4 addresses whose loopback-ness (address in 127.0.0.0/8) is as asked,
/// each once: the returned indices name, for each interface, the address it was made
/// from. Each interface carries that address's name, IPv4 address and netmask, and the
/// broadcast address the system reports or else the address with all host bits set.
pub proof fn lemma_selected_interfaces(sys: Seq<(Seq<char>, Option<Ipv4Config>)>, loopback: bool) -> (idx: Seq<int>)
    ensures
        idx.len() == spec_select_interfaces(sys, loopback).len(),
        forall|k: int|
            0 <= k < idx.len() ==> {
                &&& 0 <= #[trigger] idx[k] < sys.len()
                &&& (sys[idx[k]].1 matches Some(c) && (c.ip.bits / 0x100_0000 == 127) == loopback
                    && spec_select_interfaces(sys, loopback)[k] == (
                    sys[idx[k]].0,
                    c.ip,
                    c.netmask,
                    match c.broadcast {
                        Some(b) => b,
                        None => Ipv4Address { bits: c.ip.bits | !c.netmask.bits },
                    },
                ))
            },
        forall|k1: int, k2: int| 0 <= k1 < k2 < idx.len() ==> idx[k1] < idx[k2],
        forall|j: int|
            0 <= j < sys.len() && (#[trigger] sys[j].1 matches Some(c) && (c.ip.bits / 0x100_0000
                == 127) == loopback) ==> exists|k: int| 0 <= k < idx.len() && idx[k] == j,
    decreases sys.len(),
{
    if sys.len() == 0 {
        Seq::empty()
    } else {
        let pre = sys.drop_last();
        let n = sys.len() - 1;
        let rest = lemma_selected_interfaces(pre, loopback);
        assert forall|j: int| 0 <= j < n implies pre[j] == sys[j] by {}
        let sel = match sys.last().1 {
            Some(c) => is_loopback_ipv4(c.ip) == loopback,
            None => false,
        };
        let idx = if sel { rest.push(n) } else { rest };
        assert forall|k: int| 0 <= k < rest.len() implies idx[k] == rest[k] by {}
        assert forall|j: int|
            0 <= j < sys.len() && (#[trigger] sys[j].1 matches Some(c) && (c.ip.bits / 0x100_0000 == 127)
                == loopback) implies exists|k: int| 0 <= k < idx.len() && idx[k] == j by {
            if j < n {
                assert(pre[j] == sys[j]);
                let k = choose|k: int| 0 <= k < rest.len() && rest[k] == j;
                assert(idx[k] == j);
            } else {
                assert(idx[rest.len() as int] == j);
            }
        }
        assert forall|k: int| 0 <= k < idx.len() implies {
            &&& 0 <= #[trigger] idx[k] < sys.len()
            &&& (sys[idx[k]].1 matches Some(c) && (c.ip.bits / 0x100_0000 == 127) == loopback
                && spec_select_interfaces(sys, loopback)[k] == (
                sys[idx[k]].0,
                c.ip,
                c.netmask,
                match c.broadcast {
                    Some(b) => b,
                    None => Ipv4Address { bits: c.ip.bits | !c.netmask.bits },
                },
            ))
        } by {
            if k < rest.len() {
                assert(pre[rest[k]] == sys[rest[k]]);
            }
        }
        idx
    }
}

} // verus!
