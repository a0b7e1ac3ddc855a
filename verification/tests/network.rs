use sood::address::{parse_ipv4, Ipv4Address};
use sood::network::{
    calculate_broadcast, loopback_interfaces_from, network_interfaces_from, Ipv4Config,
    SystemInterface,
};
use sood::text::parse_u16;

#[test]
fn test_calculate_broadcast() {
    // Class C network
    let ip = Ipv4Address::new(192, 168, 1, 100);
    let netmask = Ipv4Address::new(255, 255, 255, 0);
    assert_eq!(calculate_broadcast(ip, netmask), Ipv4Address::new(192, 168, 1, 255));

    // Class B network
    let ip = Ipv4Address::new(172, 16, 5, 10);
    let netmask = Ipv4Address::new(255, 255, 0, 0);
    assert_eq!(calculate_broadcast(ip, netmask), Ipv4Address::new(172, 16, 255, 255));

    // /25 subnet
    let ip = Ipv4Address::new(192, 168, 1, 50);
    let netmask = Ipv4Address::new(255, 255, 255, 128);
    assert_eq!(calculate_broadcast(ip, netmask), Ipv4Address::new(192, 168, 1, 127));
}

fn system_interfaces() -> Vec<SystemInterface> {
    let mut out = Vec::new();
    if let Ok(addrs) = if_addrs::get_if_addrs() {
        for iface in addrs {
            let ipv4 = match iface.addr {
                if_addrs::IfAddr::V4(a) => Some(Ipv4Config {
                    ip: Ipv4Address::from_bits(u32::from(a.ip)),
                    netmask: Ipv4Address::from_bits(u32::from(a.netmask)),
                    broadcast: a.broadcast.map(|b| Ipv4Address::from_bits(u32::from(b))),
                }),
                if_addrs::IfAddr::V6(_) => None,
            };
            out.push(SystemInterface { name: iface.name, ipv4 });
        }
    }
    out
}

#[test]
fn test_get_network_interfaces() {
    // Just verify it doesn't panic and returns some interfaces
    let interfaces = network_interfaces_from(&system_interfaces());
    // Most systems will have at least one non-loopback interface
    // but we can't guarantee it in all test environments
    println!("Found {} network interfaces", interfaces.len());
    for iface in interfaces {
        println!("  {}: {:?} (broadcast: {:?})", iface.name, iface.ip.octets(), iface.broadcast.octets());
    }
}

#[test]
fn broadcast_keeps_network_and_sets_host_bits() {
    let ip = Ipv4Address::new(10, 1, 2, 3);
    let mask = Ipv4Address::new(255, 0, 0, 0);
    let b = calculate_broadcast(ip, mask);
    assert_eq!(b, Ipv4Address::new(10, 255, 255, 255));
    assert_eq!(b.bits & mask.bits, ip.bits & mask.bits);
    assert_eq!(b.bits | mask.bits, 0xffff_ffff);
    assert_eq!(calculate_broadcast(ip, Ipv4Address::new(255, 255, 255, 255)), ip);
    assert_eq!(calculate_broadcast(ip, Ipv4Address::new(0, 0, 0, 0)), Ipv4Address::new(255, 255, 255, 255));
}

#[test]
fn ipv4_address_octets() {
    let a = Ipv4Address::new(192, 168, 1, 100);
    assert_eq!(a.bits, 0xC0A8_0164);
    assert_eq!(a.octets(), [192, 168, 1, 100]);
    assert_eq!(Ipv4Address::from_bits(0x7f00_0001), Ipv4Address::new(127, 0, 0, 1));
}

#[test]
fn select_interfaces_filters_and_fills_broadcast() {
    let cfg = |ip: Ipv4Address, mask: Ipv4Address, b: Option<Ipv4Address>| Some(Ipv4Config { ip, netmask: mask, broadcast: b });
    let system = vec![
        SystemInterface { name: "lo".to_string(), ipv4: cfg(Ipv4Address::new(127, 0, 0, 1), Ipv4Address::new(255, 0, 0, 0), None) },
        SystemInterface { name: "eth0".to_string(), ipv4: cfg(Ipv4Address::new(192, 168, 1, 100), Ipv4Address::new(255, 255, 255, 0), None) },
        SystemInterface { name: "eth0".to_string(), ipv4: None },
        SystemInterface {
            name: "wlan0".to_string(),
            ipv4: cfg(Ipv4Address::new(10, 0, 0, 5), Ipv4Address::new(255, 255, 0, 0), Some(Ipv4Address::new(10, 0, 9, 9))),
        },
    ];
    let net = network_interfaces_from(&system);
    assert_eq!(net.len(), 2);
    assert_eq!(net[0].name, "eth0");
    assert_eq!(net[0].broadcast, Ipv4Address::new(192, 168, 1, 255));
    assert_eq!(net[1].name, "wlan0");
    assert_eq!(net[1].broadcast, Ipv4Address::new(10, 0, 9, 9));
    assert_eq!(net[1].netmask, Ipv4Address::new(255, 255, 0, 0));
    let lo = loopback_interfaces_from(&system);
    assert_eq!(lo.len(), 1);
    assert_eq!(lo[0].name, "lo");
    assert_eq!(lo[0].broadcast, Ipv4Address::new(127, 255, 255, 255));
}

#[test]
fn parse_ipv4_accepts_dotted_quads_only() {
    let ok: [(&str, [u8; 4]); 4] = [
        ("1.2.3.4", [1, 2, 3, 4]),
        ("0.0.0.0", [0, 0, 0, 0]),
        ("255.255.255.255", [255, 255, 255, 255]),
        ("10.0.100.9", [10, 0, 100, 9]),
    ];
    for (c, o) in ok {
        assert_eq!(parse_ipv4(c.as_bytes()).map(|a| a.octets()), Some(o), "{}", c);
    }
    let bad: [&str; 11] = [
        "01.2.3.4", "1.2.3", "1.2.3.4.", "256.1.1.1", "1.2.3.4 ", "+1.2.3.4", "1..3.4", "",
        "0000.1.2.3", "10.00.1.1", "192.168.001.1",
    ];
    for c in bad {
        assert_eq!(parse_ipv4(c.as_bytes()), None, "{}", c);
    }
}

#[test]
fn parse_u16_follows_std() {
    let cases: [&str; 12] = ["0", "65535", "65536", "+80", "+", "-0", "", "007", "1_0", "99999999999", "٣", "12 "];
    for c in cases {
        assert_eq!(parse_u16(c.as_bytes()), c.parse::<u16>().ok(), "{}", c);
    }
}
