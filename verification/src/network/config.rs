//! The configuration of the pod network.
use vstd::arithmetic::power2;
use vstd::prelude::*;
use crate::network::address;
use crate::network::address::{power_u128, Ipv4Addr, Ipv4Network, Ipv6Addr, Ipv6Network};
use crate::network::ip::{AddIP, SubIP};
use crate::text::concat2;

verus! {

/// The configuration of the pod network.
#[derive(Debug)]
pub struct Config {
    pub enable_ipv4: bool,
    pub enable_ipv6: bool,
    pub enable_nftables: bool,
    pub network: Option<Ipv4Network>,
    pub ipv6_network: Option<Ipv6Network>,
    pub subnet_min: Option<Ipv4Addr>,
    pub subnet_max: Option<Ipv4Addr>,
    pub ipv6_subnet_min: Option<Ipv6Addr>,
    pub ipv6_subnet_max: Option<Ipv6Addr>,
    pub subnet_len: u8,
    pub ipv6_subnet_len: u8,
    pub backend_type: String,
}

impl Default for Config {
    fn default() -> (r: Self)
        ensures
            !r.enable_ipv4 && !r.enable_ipv6 && !r.enable_nftables,
            r.network is None && r.ipv6_network is None,
            r.subnet_min is None && r.subnet_max is None,
            r.ipv6_subnet_min is None && r.ipv6_subnet_max is None,
            r.subnet_len == 0 && r.ipv6_subnet_len == 0,
            r.backend_type@.len() == 0,
    {
        Config {
            enable_ipv4: false,
            enable_ipv6: false,
            enable_nftables: false,
            network: None,
            ipv6_network: None,
            subnet_min: None,
            subnet_max: None,
            ipv6_subnet_min: None,
            ipv6_subnet_max: None,
            subnet_len: 0,
            ipv6_subnet_len: 0,
            backend_type: String::new(),
        }
    }
}

/// The backend property of a configuration, as far as it matters.
#[derive(Debug)]
pub enum Backend {
    /// There is none, or it is null.
    Missing,
    Type(String),
    /// It has no type that is a text.
    Undecodable,
}

/// The type of the backend: "hostgw" when the property is missing.
pub fn parse_backend_type(be: Backend) -> (r: Result<String, String>)
    ensures
        match be {
            Backend::Missing => r matches Ok(t) && t@ == "hostgw"@,
            Backend::Type(t) => r == Ok::<String, String>(t),
            Backend::Undecodable => r matches Err(m) && m@ == "decoding Backend property of config"@,
        },
{
    match be {
        Backend::Missing => Ok("hostgw".to_owned()),
        Backend::Type(t) => Ok(t),
        Backend::Undecodable => Err("decoding Backend property of config".to_owned()),
    }
}

/// Completes a configuration that was read: IPv4 is always enabled.
pub fn parse_config(cfg: Config, be: Backend) -> (r: Result<Config, String>)
    ensures
        match (r, be) {
            (Ok(c), Backend::Missing) => c.backend_type@ == "hostgw"@ && c == (Config {
                enable_ipv4: true,
                backend_type: c.backend_type,
                ..cfg
            }),
            (Ok(c), Backend::Type(t)) => c == (Config {
                enable_ipv4: true,
                backend_type: t,
                ..cfg
            }),
            (Err(m), Backend::Undecodable) => m@ == "decoding Backend property of config"@,
            _ => false,
        },
{
    let mut cfg = cfg;
    cfg.enable_ipv4 = true;
    match parse_backend_type(be) {
        Ok(t) => {
            cfg.backend_type = t;
            Ok(cfg)
        },
        Err(m) => Err(m),
    }
}

/// The length of the subnets' network part, or why there is none. `widest` is the longest that
/// may be asked for, `smallest` the longest prefix of a network without a length asked for,
/// `usual` the length that such a network gets when it can.
pub open spec fn chosen_len(
    asked: u8,
    prefix: u8,
    widest: u8,
    smallest: u8,
    usual: u8,
    too_long: Seq<char>,
    too_small: Seq<char>,
) -> Result<u8, Seq<char>> {
    if asked > 0 {
        if asked > widest {
            Err(too_long)
        } else if asked < prefix + 2 {
            Err("network must be able to accommodate at least four subnets"@)
        } else {
            Ok(asked)
        }
    } else if prefix > smallest {
        Err(too_small)
    } else if prefix + 2 <= usual {
        Ok(usual)
    } else {
        Ok((prefix + 2) as u8)
    }
}

pub open spec fn len4(cfg: Config, n: Ipv4Network) -> Result<u8, Seq<char>> {
    chosen_len(
        cfg.subnet_len,
        n.prefix,
        30,
        28,
        24,
        "SubnetLen must be less than /31"@,
        "network is too small. Minimum useful network prefix is /28"@,
    )
}

pub open spec fn len6(cfg: Config, n: Ipv6Network) -> Result<u8, Seq<char>> {
    chosen_len(
        cfg.ipv6_subnet_len,
        n.prefix,
        126,
        124,
        64,
        "SubnetLen must be less than /127"@,
        "IPv6Network is too small. Minimum useful network prefix is /124"@,
    )
}

/// The first subnet: the one that is configured, or the second of the network.
pub open spec fn min4(cfg: Config, n: Ipv4Network, len: u8) -> Ipv4Addr {
    match cfg.subnet_min {
        Some(a) => a,
        None => Ipv4Addr { bits: (n.ip.bits + address::block4(len)) as u32 },
    }
}

/// The last subnet: the one that is configured, or the last of the network.
pub open spec fn max4(cfg: Config, n: Ipv4Network, len: u8) -> Ipv4Addr {
    match cfg.subnet_max {
        Some(a) => a,
        None => Ipv4Addr { bits: (n.last() + 1 - address::block4(len)) as u32 },
    }
}

pub open spec fn min6(cfg: Config, n: Ipv6Network, len: u8) -> Ipv6Addr {
    match cfg.ipv6_subnet_min {
        Some(a) => a,
        None => Ipv6Addr { bits: (n.ip.bits + address::block6(len)) as u128 },
    }
}

pub open spec fn max6(cfg: Config, n: Ipv6Network, len: u8) -> Ipv6Addr {
    match cfg.ipv6_subnet_max {
        Some(a) => a,
        None => Ipv6Addr { bits: (n.last() + 1 - address::block6(len)) as u128 },
    }
}

/// The checks of the IPv4 part, in order: the configuration that they leave and the message of
/// the first that fails.
pub open spec fn checked4(cfg: Config) -> (Config, Option<Seq<char>>) {
    match cfg.network {
        None => (cfg, Some("please define a correct Network parameter in the flannel config"@)),
        Some(n) => match len4(cfg, n) {
            Err(m) => (cfg, Some(m)),
            Ok(len) => {
                let c1 = Config { subnet_len: len, ..cfg };
                let min = min4(cfg, n, len);
                let max = max4(cfg, n, len);
                let c2 = Config { subnet_min: Some(min), ..c1 };
                let c3 = Config { subnet_max: Some(max), ..c2 };
                if cfg.subnet_min is Some && !n.holds(min) {
                    (c1, Some("SubnetMin is not in the range of the Network"@))
                } else if cfg.subnet_max is Some && !n.holds(max) {
                    (c2, Some("SubnetMax is not in the range of the Network"@))
                } else if min.bits as int % address::block4(len) != 0 {
                    (
                        c3,
                        Some(
                            "SubnetMin is not on a SubnetLen boundary: "@ + address::ipv4_text(min),
                        ),
                    )
                } else if max.bits as int % address::block4(len) != 0 {
                    (
                        c3,
                        Some(
                            "SubnetMax is not on a SubnetLen boundary: "@ + address::ipv4_text(max),
                        ),
                    )
                } else {
                    (c3, None)
                }
            },
        },
    }
}

/// The checks of the IPv6 part, in order.
pub open spec fn checked6(cfg: Config) -> (Config, Option<Seq<char>>) {
    match cfg.ipv6_network {
        None => (cfg, Some("please define a correct IPv6Network parameter in the flannel config"@)),
        Some(n) => match len6(cfg, n) {
            Err(m) => (cfg, Some(m)),
            Ok(len) => {
                let c1 = Config { ipv6_subnet_len: len, ..cfg };
                let min = min6(cfg, n, len);
                let max = max6(cfg, n, len);
                let c2 = Config { ipv6_subnet_min: Some(min), ..c1 };
                let c3 = Config { ipv6_subnet_max: Some(max), ..c2 };
                if cfg.ipv6_subnet_min is Some && !n.holds(min) {
                    (c1, Some("IPv6SubnetMin is not in the range of the IPv6Network"@))
                } else if cfg.ipv6_subnet_max is Some && !n.holds(max) {
                    (c2, Some("IPv6SubnetMax is not in the range of the IPv6Network"@))
                } else if min.bits as int % address::block6(len) != 0 {
                    (
                        c3,
                        Some(
                            "SubnetMin is not on a SubnetLen boundary: "@ + address::ipv6_text(
                                min.bits,
                            ),
                        ),
                    )
                } else if max.bits as int % address::block6(len) != 0 {
                    (
                        c3,
                        Some(
                            "SubnetMax is not on a SubnetLen boundary: "@ + address::ipv6_text(
                                max.bits,
                            ),
                        ),
                    )
                } else {
                    (c3, None)
                }
            },
        },
    }
}

/// All checks: those of IPv6 follow when those of IPv4 do not fail.
pub open spec fn checked(cfg: Config) -> (Config, Option<Seq<char>>) {
    if cfg.enable_ipv4 {
        let r = checked4(cfg);
        if r.1 is Some || !cfg.enable_ipv6 {
            r
        } else {
            checked6(r.0)
        }
    } else if cfg.enable_ipv6 {
        checked6(cfg)
    } else {
        (cfg, None)
    }
}

/// Whether the defaults of the IPv4 part can be computed: they need room after the network.
pub open spec fn defaults_fit4(cfg: Config) -> bool {
    cfg.network matches Some(n) ==> {
        &&& n.wf()
        &&& cfg.subnet_min is None ==> (len4(cfg, n) matches Ok(len) ==> n.ip.bits
            + address::block4(len) <= u32::MAX)
        &&& cfg.subnet_max is None ==> len4(cfg, n) is Ok ==> n.last() < u32::MAX
    }
}

/// Whether the defaults of the IPv6 part can be computed.
pub open spec fn defaults_fit6(cfg: Config) -> bool {
    cfg.ipv6_network matches Some(n) ==> {
        &&& n.wf()
        &&& cfg.ipv6_subnet_min is None ==> (len6(cfg, n) matches Ok(len) ==> n.ip.bits
            + address::block6(len) <= u128::MAX)
        &&& cfg.ipv6_subnet_max is None ==> len6(cfg, n) is Ok ==> n.last() < u128::MAX
    }
}

/// Whether a result reports the message, or success when there is none.
pub open spec fn reports(r: Result<(), String>, m: Option<Seq<char>>) -> bool {
    match (r, m) {
        (Ok(_), None) => true,
        (Err(t), Some(s)) => t@ == s,
        _ => false,
    }
}

fn check4(cfg: &mut Config) -> (r: Result<(), String>)
    requires
        defaults_fit4(*old(cfg)),
    ensures
        *final(cfg) == checked4(*old(cfg)).0,
        reports(r, checked4(*old(cfg)).1),
{
    let n = match cfg.network {
        Some(n) => n,
        None => {
            return Err(
                "please define a correct Network parameter in the flannel config".to_owned(),
            );
        },
    };
    let prefix: u8 = n.prefix;
    if cfg.subnet_len > 0 {
        if cfg.subnet_len > 30 {
            return Err("SubnetLen must be less than /31".to_owned());
        }
        if cfg.subnet_len < prefix + 2 {
            return Err("network must be able to accommodate at least four subnets".to_owned());
        }
    } else {
        if prefix > 28 {
            return Err("network is too small. Minimum useful network prefix is /28".to_owned());
        } else if prefix <= 22 {
            cfg.subnet_len = 24;
        } else {
            cfg.subnet_len = prefix + 2;
        }
    }
    let len: u8 = cfg.subnet_len;
    let size: u128 = power_u128(32 - len);
    proof {
        address::lemma_powers();
        address::lemma_first4(n);
        power2::lemma_pow2_strictly_increases((32 - len) as nat, (32 - prefix) as nat);
        if prefix > 0 {
            power2::lemma_pow2_strictly_increases((32 - prefix) as nat, 32);
        }
    }
    let size: u32 = size as u32;
    let min: Ipv4Addr = match cfg.subnet_min {
        Some(min) => {
            if !n.contains(min) {
                return Err("SubnetMin is not in the range of the Network".to_owned());
            }
            min
        },
        None => n.ip.add(size),
    };
    cfg.subnet_min = Some(min);
    let max: Ipv4Addr = match cfg.subnet_max {
        Some(max) => {
            if !n.contains(max) {
                return Err("SubnetMax is not in the range of the Network".to_owned());
            }
            max
        },
        None => n.broadcast().add(1u32).sub(size),
    };
    cfg.subnet_max = Some(max);
    if min.bits % size != 0 {
        return Err(
            concat2("SubnetMin is not on a SubnetLen boundary: ", min.to_text().as_str()),
        );
    }
    if max.bits % size != 0 {
        return Err(
            concat2("SubnetMax is not on a SubnetLen boundary: ", max.to_text().as_str()),
        );
    }
    Ok(())
}

fn check6(cfg: &mut Config) -> (r: Result<(), String>)
    requires
        defaults_fit6(*old(cfg)),
    ensures
        *final(cfg) == checked6(*old(cfg)).0,
        reports(r, checked6(*old(cfg)).1),
{
    let n = match cfg.ipv6_network {
        Some(n) => n,
        None => {
            return Err(
                "please define a correct IPv6Network parameter in the flannel config".to_owned(),
            );
        },
    };
    let prefix: u8 = n.prefix;
    if cfg.ipv6_subnet_len > 0 {
        if cfg.ipv6_subnet_len > 126 {
            return Err("SubnetLen must be less than /127".to_owned());
        }
        if cfg.ipv6_subnet_len < prefix + 2 {
            return Err("network must be able to accommodate at least four subnets".to_owned());
        }
    } else {
        if prefix > 124 {
            return Err(
                "IPv6Network is too small. Minimum useful network prefix is /124".to_owned(),
            );
        } else if prefix <= 62 {
            cfg.ipv6_subnet_len = 64;
        } else {
            cfg.ipv6_subnet_len = prefix + 2;
        }
    }
    let len: u8 = cfg.ipv6_subnet_len;
    let size: u128 = power_u128(128 - len);
    proof {
        address::lemma_powers();
        address::lemma_first6(n);
        power2::lemma_pow2_strictly_increases((128 - len) as nat, (128 - prefix) as nat);
    }
    let min: Ipv6Addr = match cfg.ipv6_subnet_min {
        Some(min) => {
            if !n.contains(min) {
                return Err("IPv6SubnetMin is not in the range of the IPv6Network".to_owned());
            }
            min
        },
        None => n.ip.add(size),
    };
    cfg.ipv6_subnet_min = Some(min);
    let max: Ipv6Addr = match cfg.ipv6_subnet_max {
        Some(max) => {
            if !n.contains(max) {
                return Err("IPv6SubnetMax is not in the range of the IPv6Network".to_owned());
            }
            max
        },
        None => n.broadcast().add(1u128).sub(size),
    };
    cfg.ipv6_subnet_max = Some(max);
    if min.bits % size != 0 {
        return Err(
            concat2("SubnetMin is not on a SubnetLen boundary: ", min.to_text().as_str()),
        );
    }
    if max.bits % size != 0 {
        return Err(
            concat2("SubnetMax is not on a SubnetLen boundary: ", max.to_text().as_str()),
        );
    }
    Ok(())
}

/// Checks a configuration and fills in what it leaves open: the length of the subnets and the
/// first and the last of them.
pub fn check_network_config(cfg: &mut Config) -> (r: Result<(), String>)
    requires
        old(cfg).enable_ipv4 ==> defaults_fit4(*old(cfg)),
        old(cfg).enable_ipv6 ==> defaults_fit6(*old(cfg)),
    ensures
        *final(cfg) == checked(*old(cfg)).0,
        reports(r, checked(*old(cfg)).1),
{
    if cfg.enable_ipv4 {
        match check4(cfg) {
            Ok(_) => {},
            Err(m) => {
                return Err(m);
            },
        }
    }
    if cfg.enable_ipv6 {
        return check6(cfg);
    }
    Ok(())
}

/// Whether the second subnet of the IPv4 network lies in it, where it is the first that is used.
pub open spec fn second_fits4(cfg: Config) -> bool {
    cfg.network matches Some(n) ==> cfg.subnet_min is None ==> (len4(cfg, n) matches Ok(len)
        ==> n.ip.bits + address::block4(len) <= n.last())
}

/// Whether the second subnet of the IPv6 network lies in it, where it is the first that is used.
pub open spec fn second_fits6(cfg: Config) -> bool {
    cfg.ipv6_network matches Some(n) ==> cfg.ipv6_subnet_min is None ==> (len6(
        cfg,
        n,
    ) matches Ok(len) ==> n.ip.bits + address::block6(len) <= n.last())
}

/// Whether the IPv4 part has an aligned first and last subnet in its network, which has room for
/// at least four.
pub open spec fn sound4(c: Config) -> bool {
    c.network matches Some(n) && c.subnet_min matches Some(min) && c.subnet_max matches Some(max)
        && n.holds(min) && n.holds(max) && min.bits as int % address::block4(c.subnet_len) == 0
        && max.bits as int % address::block4(c.subnet_len) == 0 && n.prefix + 2 <= c.subnet_len
        <= 30 && 4 * address::block4(c.subnet_len) <= address::block4(n.prefix)
}

/// Whether the IPv6 part has an aligned first and last subnet in its network, which has room for
/// at least four.
pub open spec fn sound6(c: Config) -> bool {
    c.ipv6_network matches Some(n) && c.ipv6_subnet_min matches Some(min)
        && c.ipv6_subnet_max matches Some(max) && n.holds(min) && n.holds(max) && min.bits as int
        % address::block6(c.ipv6_subnet_len) == 0 && max.bits as int % address::block6(
        c.ipv6_subnet_len,
    ) == 0 && n.prefix + 2 <= c.ipv6_subnet_len <= 126 && 4 * address::block6(c.ipv6_subnet_len)
        <= address::block6(n.prefix)
}

/// Four blocks of a network part that is longer by two fit into one.
proof fn lemma_four_fit(bits: nat, prefix: nat, len: nat)
    requires
        prefix + 2 <= len <= bits,
    ensures
        0 < 4 * power2::pow2((bits - len) as nat) <= power2::pow2((bits - prefix) as nat),
{
    power2::lemma_pow2_pos((bits - len) as nat);
    power2::lemma2_to64();
    power2::lemma_pow2_adds((bits - len) as nat, (len - prefix) as nat);
    if len - prefix > 2 {
        power2::lemma_pow2_strictly_increases(2, (len - prefix) as nat);
    }
    let a = power2::pow2((bits - len) as nat) as int;
    let b = power2::pow2((len - prefix) as nat) as int;
    assert(4 * a <= a * b) by (nonlinear_arith)
        requires
            b >= 4,
            a > 0,
    ;
}

proof fn lemma_sound4(cfg: Config)
    requires
        defaults_fit4(cfg),
        second_fits4(cfg),
        checked4(cfg).1 is None,
    ensures
        sound4(checked4(cfg).0),
        checked4(checked4(cfg).0) == checked4(cfg),
{
    let n = cfg.network->0;
    let len = len4(cfg, n)->Ok_0;
    address::lemma_first4(n);
    address::lemma_powers();
    lemma_four_fit(32, n.prefix as nat, len as nat);
}

proof fn lemma_sound6(cfg: Config)
    requires
        defaults_fit6(cfg),
        second_fits6(cfg),
        checked6(cfg).1 is None,
    ensures
        sound6(checked6(cfg).0),
        checked6(checked6(cfg).0) == checked6(cfg),
{
    let n = cfg.ipv6_network->0;
    let len = len6(cfg, n)->Ok_0;
    address::lemma_first6(n);
    address::lemma_powers();
    lemma_four_fit(128, n.prefix as nat, len as nat);
}

/// A configuration that passes the checks has, for each kind of addresses that is enabled, an
/// aligned first and last subnet in its network, which has room for at least four. Where the
/// first one is not configured, the network must have a second subnet after its address.
pub proof fn law_checked_subnets_lie_in_the_network(cfg: Config)
    requires
        cfg.enable_ipv4 ==> defaults_fit4(cfg) && second_fits4(cfg),
        cfg.enable_ipv6 ==> defaults_fit6(cfg) && second_fits6(cfg),
        checked(cfg).1 is None,
    ensures
        cfg.enable_ipv4 ==> sound4(checked(cfg).0),
        cfg.enable_ipv6 ==> sound6(checked(cfg).0),
{
    if cfg.enable_ipv4 {
        lemma_sound4(cfg);
        if cfg.enable_ipv6 {
            lemma_sound6(checked4(cfg).0);
        }
    } else if cfg.enable_ipv6 {
        lemma_sound6(cfg);
    }
}

/// Checking a configuration that passed again changes nothing.
pub proof fn law_check_is_idempotent(cfg: Config)
    requires
        cfg.enable_ipv4 ==> defaults_fit4(cfg) && second_fits4(cfg),
        cfg.enable_ipv6 ==> defaults_fit6(cfg) && second_fits6(cfg),
        checked(cfg).1 is None,
    ensures
        checked(checked(cfg).0) == checked(cfg),
{
    if cfg.enable_ipv4 {
        lemma_sound4(cfg);
        if cfg.enable_ipv6 {
            let c = checked4(cfg).0;
            lemma_sound6(c);
            let d = checked6(c).0;
            assert(checked4(d) == (d, None::<Seq<char>>));
        }
    } else if cfg.enable_ipv6 {
        lemma_sound6(cfg);
    }
}

/// A configuration of the shorter addresses passes exactly when its network is set, the length of
/// its subnets is one that leaves room for at least four of them, and the first and the last
/// subnet lie in the network, where they are given, and begin at multiples of their size. A length
/// that is given stays, and so do given subnets; a missing length becomes 24, or two bits more
/// than the network's, and missing subnets become the one behind the network's address and the
/// last one.
pub proof fn law_subnets_fit_into_the_network(cfg: &mut Config, r: Result<(), String>)
    requires
        call_ensures(check_network_config, (cfg,), r),
        old(cfg).enable_ipv4 && !old(cfg).enable_ipv6,
        defaults_fit4(*old(cfg)),
    ensures
        old(cfg).network is None ==> r is Err,
        old(cfg).network matches Some(n) ==> {
            let given = old(cfg).subnet_len;
            let len: int = if given > 0 {
                given as int
            } else if n.prefix <= 22 {
                24
            } else {
                n.prefix + 2
            };
            let size = vstd::arithmetic::power2::pow2((32 - len) as nat) as int;
            let min: int = match old(cfg).subnet_min {
                Some(a) => a.bits as int,
                None => n.ip.bits + size,
            };
            let max: int = match old(cfg).subnet_max {
                Some(a) => a.bits as int,
                None => n.last() + 1 - size,
            };
            let fits = n.prefix + 2 <= len <= 30;
            &&& !fits ==> r is Err
            &&& fits ==> (r is Ok <==> {
                &&& old(cfg).subnet_min is Some ==> n.first() <= min <= n.last()
                &&& old(cfg).subnet_max is Some ==> n.first() <= max <= n.last()
                &&& min % size == 0
                &&& max % size == 0
            })
            &&& r is Ok ==> final(cfg).subnet_len == len && (final(cfg).subnet_min matches Some(a) && a.bits
                == min) && (final(cfg).subnet_max matches Some(b) && b.bits == max)
        },
        final(cfg).network == old(cfg).network,
        final(cfg).backend_type == old(cfg).backend_type,
{
    if let Some(n) = old(cfg).network {
        address::lemma_first4(n);
        address::lemma_powers();
        if let Ok(len) = len4(*old(cfg), n) {
            lemma_four_fit(32, n.prefix as nat, len as nat);
        }
    }
}

/// A configuration of the longer addresses passes exactly when its network is set, the length of
/// its subnets is one that leaves room for at least four of them, and the first and the last
/// subnet lie in the network, where they are given, and begin at multiples of their size. A length
/// that is given stays, and so do given subnets; a missing length becomes 64, or two bits more
/// than the network's, and missing subnets become the one behind the network's address and the
/// last one.
pub proof fn law_subnets_fit_into_the_network_of_long_addresses(
    cfg: &mut Config,
    r: Result<(), String>,
)
    requires
        call_ensures(check_network_config, (cfg,), r),
        old(cfg).enable_ipv6 && !old(cfg).enable_ipv4,
        defaults_fit6(*old(cfg)),
    ensures
        old(cfg).ipv6_network is None ==> r is Err,
        old(cfg).ipv6_network matches Some(n) ==> {
            let given = old(cfg).ipv6_subnet_len;
            let len: int = if given > 0 {
                given as int
            } else if n.prefix <= 62 {
                64
            } else {
                n.prefix + 2
            };
            let size = vstd::arithmetic::power2::pow2((128 - len) as nat) as int;
            let min: int = match old(cfg).ipv6_subnet_min {
                Some(a) => a.bits as int,
                None => n.ip.bits + size,
            };
            let max: int = match old(cfg).ipv6_subnet_max {
                Some(a) => a.bits as int,
                None => n.last() + 1 - size,
            };
            let fits = n.prefix + 2 <= len <= 126;
            &&& !fits ==> r is Err
            &&& fits ==> (r is Ok <==> {
                &&& old(cfg).ipv6_subnet_min is Some ==> n.first() <= min <= n.last()
                &&& old(cfg).ipv6_subnet_max is Some ==> n.first() <= max <= n.last()
                &&& min % size == 0
                &&& max % size == 0
            })
            &&& r is Ok ==> final(cfg).ipv6_subnet_len == len && (final(cfg).ipv6_subnet_min matches Some(a) && a.bits
                == min) && (final(cfg).ipv6_subnet_max matches Some(b) && b.bits == max)
        },
        final(cfg).ipv6_network == old(cfg).ipv6_network,
        final(cfg).backend_type == old(cfg).backend_type,
{
    if let Some(n) = old(cfg).ipv6_network {
        address::lemma_first6(n);
        address::lemma_powers();
        if let Ok(len) = len6(*old(cfg), n) {
            lemma_four_fit(128, n.prefix as nat, len as nat);
        }
    }
}

/// The backend of a configuration is the one that it names, or `hostgw` where it names none, and a
/// configuration is always one of the shorter addresses.
pub proof fn law_backend_is_the_one_named(cfg: Config, be: Backend, r: Result<Config, String>)
    requires
        call_ensures(parse_config, (cfg, be), r),
    ensures
        r is Err <==> be is Undecodable,
        r matches Ok(c) ==> c.enable_ipv4 && c.network == cfg.network && c.subnet_len == cfg.subnet_len
            && c.enable_ipv6 == cfg.enable_ipv6,
        r matches Ok(c) ==> (be matches Backend::Type(t) ==> c.backend_type@ == t@),
        r matches Ok(c) ==> (be is Missing ==> c.backend_type@ == "hostgw"@),
{
}

} // verus!
