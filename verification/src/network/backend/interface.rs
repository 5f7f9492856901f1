//! The network interface that the backend uses.
use vstd::prelude::*;
use crate::network::address;
use crate::network::address::{Ipv4Addr, Ipv6Addr};
use crate::text;
use crate::text::{concat3, str_eq, to_decimal};

verus! {

/// A network interface.
#[derive(Debug)]
pub struct Interface {
    pub name: String,
    pub index: u32,
    pub mtu: Option<u32>,
}

/// The interface towards the other nodes, with its addresses.
#[derive(Debug)]
pub struct ExternalInterface {
    pub iface: Interface,
    pub iface_addr: Option<Ipv4Addr>,
    pub iface_v6_addr: Option<Ipv6Addr>,
    pub ext_addr: Option<Ipv4Addr>,
    pub ext_v6_addr: Option<Ipv6Addr>,
}

/// The least MTU of an interface.
pub const MIN_MTU: u32 = 1280;

/// The MTU of an interface that does not tell.
pub const DEFAULT_MTU: u32 = 1500;

/// How the interface is found.
#[derive(Debug)]
pub enum Discovery {
    ByName(String),
    ByAddress(Ipv4Addr),
    /// The interface of the default gateway.
    Default,
}

/// How the interface is found: by its name, by its address when no name is given, by the
/// default gateway when neither is.
pub fn discover_interface(iface_name: Option<String>, expected_ip: Option<Ipv4Addr>) -> (r:
    Discovery)
    ensures
        r == match (iface_name, expected_ip) {
            (Some(name), _) => Discovery::ByName(name),
            (None, Some(ip)) => Discovery::ByAddress(ip),
            (None, None) => Discovery::Default,
        },
{
    match (iface_name, expected_ip) {
        (Some(name), _) => Discovery::ByName(name),
        (None, Some(ip)) => Discovery::ByAddress(ip),
        (None, None) => Discovery::Default,
    }
}

/// The position of the first interface of a name, at or after `from`.
pub open spec fn named_at(all: Seq<Interface>, name: Seq<char>, from: int) -> int
    decreases all.len() - from,
{
    if from < 0 || from >= all.len() {
        all.len() as int
    } else if all[from].name@ == name {
        from
    } else {
        named_at(all, name, from + 1)
    }
}

/// The interface of a name.
pub fn discover_interface_by_name(all: Vec<Interface>, name: &str) -> (r: Result<
    Interface,
    String,
>)
    ensures
        ({
            let i = named_at(all@, name@, 0);
            if i < all@.len() {
                r == Ok::<Interface, String>(all@[i])
            } else {
                r matches Err(m) && m@ == "Interface '"@ + name@ + "' not found"@
            }
        }),
{
    let mut list = all;
    let mut i: usize = 0;
    while i < list.len()
        invariant
            i <= list@.len(),
            list@ == all@,
            named_at(all@, name@, 0) == named_at(all@, name@, i as int),
        decreases list@.len() - i,
    {
        if str_eq(list[i].name.as_str(), name) {
            return Ok(list.remove(i));
        }
        i = i + 1;
    }
    Err(concat3("Interface '", name, "' not found"))
}

pub open spec fn first_of<T>(s: Seq<T>) -> Option<T> {
    if s.len() > 0 {
        Some(s[0])
    } else {
        None
    }
}

/// The interface with an address, and the first of its IPv6 addresses.
pub open spec fn addressed(
    iface: Interface,
    v4: Option<Ipv4Addr>,
    v6: Seq<Ipv6Addr>,
) -> ExternalInterface {
    ExternalInterface {
        iface,
        iface_addr: v4,
        ext_addr: v4,
        iface_v6_addr: first_of(v6),
        ext_v6_addr: first_of(v6),
    }
}

/// The interface with the first of its addresses.
pub fn with_addresses(iface: Interface, v4: &Vec<Ipv4Addr>, v6: &Vec<Ipv6Addr>) -> (r:
    ExternalInterface)
    ensures
        r == addressed(iface, first_of(v4@), v6@),
{
    let a: Option<Ipv4Addr> = if v4.len() > 0 {
        Some(v4[0])
    } else {
        None
    };
    let b: Option<Ipv6Addr> = if v6.len() > 0 {
        Some(v6[0])
    } else {
        None
    };
    ExternalInterface {
        iface,
        iface_addr: a,
        ext_addr: a,
        iface_v6_addr: b,
        ext_v6_addr: b,
    }
}

/// The interface with the address that it was found by, when that is one of its addresses.
pub fn discover_interface_by_ip(
    iface: Interface,
    ip: Ipv4Addr,
    v4: &Vec<Ipv4Addr>,
    v6: &Vec<Ipv6Addr>,
) -> (r: ExternalInterface)
    ensures
        r == addressed(
            iface,
            if v4@.contains(ip) {
                Some(ip)
            } else {
                None
            },
            v6@,
        ),
{
    let mut found = false;
    for i in 0..v4.len()
        invariant
            found == exists|k: int| 0 <= k < i && #[trigger] v4@[k] == ip,
    {
        if v4[i] == ip {
            found = true;
            assert(v4@[i as int] == ip);
        }
    }
    let a: Option<Ipv4Addr> = if found {
        Some(ip)
    } else {
        None
    };
    let b: Option<Ipv6Addr> = if v6.len() > 0 {
        Some(v6[0])
    } else {
        None
    };
    assert(found == v4@.contains(ip));
    ExternalInterface {
        iface,
        iface_addr: a,
        ext_addr: a,
        iface_v6_addr: b,
        ext_v6_addr: b,
    }
}

/// The MTU of an interface.
pub open spec fn mtu_of(i: Interface) -> u32 {
    match i.mtu {
        Some(m) => m,
        None => DEFAULT_MTU,
    }
}

/// What makes the interface unsuitable for the host-gw backend, if anything does.
pub open spec fn unsuitable(interface: ExternalInterface) -> Option<Seq<char>> {
    let mtu = mtu_of(interface.iface);
    if mtu < MIN_MTU {
        Some("Interface MTU "@ + text::decimal(mtu as nat) + " is too small, minimum 1280"@)
    } else {
        match interface.iface_addr {
            None => Some("Interface has no IPv4 address assigned"@),
            Some(a) => if a.bits == 0 {
                Some("Interface has invalid IPv4 address"@)
            } else {
                None
            },
        }
    }
}

/// What makes the addresses of the interface incompatible with the host-gw backend, if anything
/// does.
pub open spec fn incompatible(interface: ExternalInterface) -> Option<Seq<char>> {
    match (interface.ext_addr, interface.iface_addr) {
        (Some(ext), Some(own)) => if ext == own {
            None
        } else {
            Some(
                "Your PublicIP ("@ + address::ipv4_text(ext) + ") differs from interface IP ("@
                    + address::ipv4_text(own)
                    + "), meaning that probably you're on a NAT, which is not supported by host-gw backend"@,
            )
        },
        (None, _) => Some("No external IP address available"@),
        (_, None) => Some("No interface IP address available"@),
    }
}

/// Whether a result reports the fault, or success when there is none.
pub open spec fn reports(r: Result<(), String>, fault: Option<Seq<char>>) -> bool {
    match (r, fault) {
        (Ok(_), None) => true,
        (Err(m), Some(f)) => m@ == f,
        _ => false,
    }
}

/// Validate that the interface is suitable for host-gw backend
pub fn validate_interface(interface: &ExternalInterface) -> (r: Result<(), String>)
    ensures
        reports(r, unsuitable(*interface)),
{
    let mtu: u32 = match interface.iface.mtu {
        Some(m) => m,
        None => DEFAULT_MTU,
    };
    if mtu < MIN_MTU {
        return Err(
            concat3(
                "Interface MTU ",
                to_decimal(mtu as u64).as_str(),
                " is too small, minimum 1280",
            ),
        );
    }
    match interface.iface_addr {
        None => Err("Interface has no IPv4 address assigned".to_owned()),
        Some(a) => if a.bits == 0 {
            Err("Interface has invalid IPv4 address".to_owned())
        } else {
            Ok(())
        },
    }
}

/// Check if the interface configuration is compatible with host-gw backend
pub fn check_hostgw_compatibility(interface: &ExternalInterface) -> (r: Result<(), String>)
    ensures
        reports(r, incompatible(*interface)),
{
    match (interface.ext_addr, interface.iface_addr) {
        (Some(ext), Some(own)) => {
            if ext != own {
                let mut m = concat3(
                    "Your PublicIP (",
                    ext.to_text().as_str(),
                    ") differs from interface IP (",
                );
                m.append(own.to_text().as_str());
                m.append(
                    "), meaning that probably you're on a NAT, which is not supported by host-gw backend",
                );
                return Err(m);
            }
            Ok(())
        },
        (None, _) => Err("No external IP address available".to_owned()),
        (_, None) => Err("No interface IP address available".to_owned()),
    }
}

/// An interface that was discovered and is suitable is compatible too.
pub proof fn law_discovered_interface_is_compatible(
    iface: Interface,
    v4: Option<Ipv4Addr>,
    v6: Seq<Ipv6Addr>,
)
    requires
        unsuitable(addressed(iface, v4, v6)) is None,
    ensures
        incompatible(addressed(iface, v4, v6)) is None,
{
}

proof fn lemma_named_at(all: Seq<Interface>, name: Seq<char>, from: int)
    requires
        0 <= from <= all.len(),
    ensures
        from <= named_at(all, name, from) <= all.len(),
        named_at(all, name, from) < all.len() ==> all[named_at(all, name, from)].name@ == name,
        forall|k: int| from <= k < named_at(all, name, from) ==> (#[trigger] all[k]).name@ != name,
    decreases all.len() - from,
{
    if from < all.len() && all[from].name@ != name {
        lemma_named_at(all, name, from + 1);
    }
}

/// An interface is found by its name where there is one of that name, and only then.
pub proof fn law_interface_is_found_by_its_name(
    all: Vec<Interface>,
    name: &str,
    r: Result<Interface, String>,
)
    requires
        call_ensures(discover_interface_by_name, (all, name), r),
    ensures
        r is Ok <==> exists|k: int| 0 <= k < all@.len() && (#[trigger] all@[k]).name@ == name@,
        r matches Ok(i) ==> i.name@ == name@ && all@.contains(i),
{
    lemma_named_at(all@, name@, 0);
}

/// A name goes before an address, and either before the default.
pub proof fn law_interface_is_looked_for_by_what_is_given(
    name: Option<String>,
    ip: Option<Ipv4Addr>,
    r: Discovery,
)
    requires
        call_ensures(discover_interface, (name, ip), r),
    ensures
        name matches Some(n) ==> r == Discovery::ByName(n),
        name is None && ip is Some ==> r == Discovery::ByAddress(ip->0),
        name is None && ip is None ==> r is Default,
{
}

/// An interface is used with its first addresses, or with the address that was asked for where it
/// has that one.
pub proof fn law_interface_is_used_with_its_addresses(
    iface: Interface,
    ip: Ipv4Addr,
    v4: Vec<Ipv4Addr>,
    v6: Vec<Ipv6Addr>,
    a: ExternalInterface,
    b: ExternalInterface,
)
    requires
        call_ensures(with_addresses, (iface, &v4, &v6), a),
        call_ensures(discover_interface_by_ip, (iface, ip, &v4, &v6), b),
    ensures
        a.iface == iface && b.iface == iface,
        a.iface_addr is Some <==> v4@.len() > 0,
        a.iface_addr matches Some(x) ==> x == v4@[0],
        a.iface_v6_addr is Some <==> v6@.len() > 0,
        a.iface_v6_addr matches Some(x) ==> x == v6@[0],
        a.ext_addr == a.iface_addr && a.ext_v6_addr == a.iface_v6_addr,
        b.iface_addr is Some <==> v4@.contains(ip),
        b.iface_addr matches Some(x) ==> x == ip,
        b.ext_addr == b.iface_addr && b.ext_v6_addr == b.iface_v6_addr,
        b.iface_v6_addr == a.iface_v6_addr,
{
}

/// An interface is fit when its packets are not too short and it has an address that is one; the
/// host gateway needs it to be reached at its own address.
pub proof fn law_interface_has_to_be_fit(
    i: ExternalInterface,
    fit: Result<(), String>,
    compatible: Result<(), String>,
)
    requires
        call_ensures(validate_interface, (&i,), fit),
        call_ensures(check_hostgw_compatibility, (&i,), compatible),
    ensures
        fit is Ok <==> (i.iface.mtu matches Some(m) ==> m >= 1280) && (i.iface_addr matches Some(a)
            && a.bits != 0),
        compatible is Ok <==> i.ext_addr is Some && i.ext_addr == i.iface_addr,
{
}

} // verus!
