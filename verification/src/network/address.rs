//! IP addresses and networks.
use vstd::arithmetic::div_mod;
use vstd::arithmetic::power2;
use vstd::prelude::*;
use crate::protocol::value::Value;
use crate::text;
use crate::text::{chars_of, concat3, split_char, to_decimal};

verus! {

/// An IPv4 address, as a number.
#[derive(Debug, Clone, Copy, PartialEq, Eq, Structural)]
pub struct Ipv4Addr {
    pub bits: u32,
}

/// An IPv6 address, as a number.
#[derive(Debug, Clone, Copy, PartialEq, Eq, Structural)]
pub struct Ipv6Addr {
    pub bits: u128,
}

/// An IPv4 address and the length of its network part.
#[derive(Debug, Clone, Copy, PartialEq, Eq, Structural)]
pub struct Ipv4Network {
    pub ip: Ipv4Addr,
    pub prefix: u8,
}

/// An IPv6 address and the length of its network part.
#[derive(Debug, Clone, Copy, PartialEq, Eq, Structural)]
pub struct Ipv6Network {
    pub ip: Ipv6Addr,
    pub prefix: u8,
}

impl DeepView for Ipv4Addr {
    type V = Ipv4Addr;

    open spec fn deep_view(&self) -> Ipv4Addr {
        *self
    }
}

impl DeepView for Ipv6Addr {
    type V = Ipv6Addr;

    open spec fn deep_view(&self) -> Ipv6Addr {
        *self
    }
}

impl DeepView for Ipv4Network {
    type V = Ipv4Network;

    open spec fn deep_view(&self) -> Ipv4Network {
        *self
    }
}

impl DeepView for Ipv6Network {
    type V = Ipv6Network;

    open spec fn deep_view(&self) -> Ipv6Network {
        *self
    }
}

impl Value for Ipv4Addr {
    fn same(&self, other: &Self) -> (r: bool) {
        *self == *other
    }

    fn copy(&self) -> (r: Self) {
        *self
    }
}

impl Value for Ipv6Addr {
    fn same(&self, other: &Self) -> (r: bool) {
        *self == *other
    }

    fn copy(&self) -> (r: Self) {
        *self
    }
}

impl Value for Ipv4Network {
    fn same(&self, other: &Self) -> (r: bool) {
        *self == *other
    }

    fn copy(&self) -> (r: Self) {
        *self
    }
}

impl Value for Ipv6Network {
    fn same(&self, other: &Self) -> (r: bool) {
        *self == *other
    }

    fn copy(&self) -> (r: Self) {
        *self
    }
}

/// The number of addresses that share a network part.
pub open spec fn block4(prefix: u8) -> int {
    power2::pow2((32 - prefix) as nat) as int
}

/// The number of addresses that share a network part.
pub open spec fn block6(prefix: u8) -> int {
    power2::pow2((128 - prefix) as nat) as int
}

impl Ipv4Network {
    /// Whether the length of the network part is one.
    pub open spec fn wf(self) -> bool {
        self.prefix <= 32
    }

    /// The lowest address of the network.
    pub open spec fn first(self) -> int {
        self.ip.bits - self.ip.bits as int % block4(self.prefix)
    }

    /// The highest address of the network.
    pub open spec fn last(self) -> int {
        self.first() + block4(self.prefix) - 1
    }

    /// Whether the address lies in the network.
    pub open spec fn holds(self, a: Ipv4Addr) -> bool {
        self.first() <= a.bits <= self.last()
    }
}

impl Ipv6Network {
    /// Whether the length of the network part is one.
    pub open spec fn wf(self) -> bool {
        self.prefix <= 128
    }

    /// The lowest address of the network.
    pub open spec fn first(self) -> int {
        self.ip.bits - self.ip.bits as int % block6(self.prefix)
    }

    /// The highest address of the network.
    pub open spec fn last(self) -> int {
        self.first() + block6(self.prefix) - 1
    }

    /// Whether the address lies in the network.
    pub open spec fn holds(self, a: Ipv6Addr) -> bool {
        self.first() <= a.bits <= self.last()
    }
}

/// Aligned blocks end where all addresses end.
pub proof fn lemma_block_fits(ip: int, size: int, count: int)
    requires
        size > 0,
        count > 0,
        0 <= ip < size * count,
    ensures
        0 <= ip - ip % size <= ip,
        ip < ip - ip % size + size <= size * count,
        (ip - ip % size) % size == 0,
{
    div_mod::lemma_fundamental_div_mod(ip, size);
    div_mod::lemma_mod_bound(ip, size);
    let q = ip / size;
    assert(ip - ip % size == size * q);
    assert(q < count) by (nonlinear_arith)
        requires
            size > 0,
            ip < size * count,
            ip >= size * q,
    ;
    assert(size * q + size <= size * count) by (nonlinear_arith)
        requires
            size > 0,
            q < count,
    ;
    div_mod::lemma_mod_multiples_basic(q, size);
    assert(q * size == size * q) by (nonlinear_arith);
    assert(ip - ip % size >= 0) by {
        div_mod::lemma_div_pos_is_pos(ip, size);
        assert(size * q >= 0) by (nonlinear_arith)
            requires
                size > 0,
                q >= 0,
        ;
    }
}

/// The values of the powers that the sizes of networks are bounded by.
pub proof fn lemma_powers()
    ensures
        power2::pow2(0) == 1,
        power2::pow2(32) == 0x1_0000_0000,
        power2::pow2(127) == 0x8000_0000_0000_0000_0000_0000_0000_0000,
        power2::pow2(128) == u128::MAX + 1,
{
    power2::lemma2_to64();
    power2::lemma2_to64_rest();
    power2::lemma_pow2_adds(64, 63);
    power2::lemma_pow2_adds(64, 64);
}

pub proof fn lemma_first4(n: Ipv4Network)
    requires
        n.wf(),
    ensures
        block4(n.prefix) >= 1,
        0 <= n.first() <= n.ip.bits <= n.last() <= u32::MAX,
        n.first() % block4(n.prefix) == 0,
{
    lemma_powers();
    power2::lemma_pow2_pos((32 - n.prefix) as nat);
    power2::lemma_pow2_pos(n.prefix as nat);
    power2::lemma_pow2_adds((32 - n.prefix) as nat, n.prefix as nat);
    lemma_block_fits(n.ip.bits as int, block4(n.prefix), power2::pow2(n.prefix as nat) as int);
}

pub proof fn lemma_first6(n: Ipv6Network)
    requires
        n.wf(),
    ensures
        block6(n.prefix) >= 1,
        0 <= n.first() <= n.ip.bits <= n.last() <= u128::MAX,
        n.first() % block6(n.prefix) == 0,
{
    lemma_powers();
    power2::lemma_pow2_pos((128 - n.prefix) as nat);
    power2::lemma_pow2_pos(n.prefix as nat);
    power2::lemma_pow2_adds((128 - n.prefix) as nat, n.prefix as nat);
    lemma_block_fits(n.ip.bits as int, block6(n.prefix), power2::pow2(n.prefix as nat) as int);
}

/// Two to the power of `n`.
pub fn power_u128(n: u8) -> (r: u128)
    requires
        n <= 127,
    ensures
        r == power2::pow2(n as nat),
        1 <= r <= 0x8000_0000_0000_0000_0000_0000_0000_0000,
{
    proof {
        lemma_powers();
    }
    let mut r: u128 = 1;
    for i in 0..n
        invariant
            n <= 127,
            r == power2::pow2(i as nat),
            1 <= r,
    {
        proof {
            power2::lemma_pow2_unfold((i + 1) as nat);
            lemma_powers();
            if i < 126 {
                power2::lemma_pow2_strictly_increases((i + 1) as nat, 127);
            }
        }
        r = r * 2;
    }
    proof {
        if n < 127 {
            power2::lemma_pow2_strictly_increases(n as nat, 127);
        }
    }
    r
}

impl Ipv4Addr {
    /// The address of four octets.
    pub fn new(a: u8, b: u8, c: u8, d: u8) -> (r: Ipv4Addr)
        ensures
            r.bits == a * 0x100_0000 + b * 0x1_0000 + c * 0x100 + d,
    {
        Ipv4Addr {
            bits: a as u32 * 0x100_0000 + b as u32 * 0x1_0000 + c as u32 * 0x100 + d as u32,
        }
    }
}

impl Ipv4Network {
    /// A network, when the length of its network part is one.
    pub fn new(ip: Ipv4Addr, prefix: u8) -> (r: Option<Ipv4Network>)
        ensures
            r == if prefix <= 32 {
                Some(Ipv4Network { ip, prefix })
            } else {
                None
            },
    {
        if prefix <= 32 {
            Some(Ipv4Network { ip, prefix })
        } else {
            None
        }
    }

    /// The number of addresses of the network.
    fn size(&self) -> (r: u64)
        requires
            self.wf(),
        ensures
            r == block4(self.prefix),
            1 <= r <= 0x1_0000_0000,
    {
        let s: u128 = power_u128(32 - self.prefix);
        proof {
            lemma_powers();
            if self.prefix > 0 {
                power2::lemma_pow2_strictly_increases((32 - self.prefix) as nat, 32);
            }
        }
        s as u64
    }

    /// The lowest address of the network.
    pub fn network(&self) -> (r: Ipv4Addr)
        requires
            self.wf(),
        ensures
            r.bits == self.first(),
    {
        let s = self.size();
        proof {
            lemma_first4(*self);
        }
        let ip: u64 = self.ip.bits as u64;
        Ipv4Addr { bits: (ip - ip % s) as u32 }
    }

    /// The highest address of the network.
    pub fn broadcast(&self) -> (r: Ipv4Addr)
        requires
            self.wf(),
        ensures
            r.bits == self.last(),
    {
        let s = self.size();
        proof {
            lemma_first4(*self);
        }
        let ip: u64 = self.ip.bits as u64;
        Ipv4Addr { bits: (ip - ip % s + (s - 1)) as u32 }
    }

    /// Whether the address lies in the network.
    pub fn contains(&self, a: Ipv4Addr) -> (r: bool)
        requires
            self.wf(),
        ensures
            r == self.holds(a),
    {
        let low = self.network();
        let high = self.broadcast();
        low.bits <= a.bits && a.bits <= high.bits
    }
}

impl Ipv6Network {
    /// A network, when the length of its network part is one.
    pub fn new(ip: Ipv6Addr, prefix: u8) -> (r: Option<Ipv6Network>)
        ensures
            r == if prefix <= 128 {
                Some(Ipv6Network { ip, prefix })
            } else {
                None
            },
    {
        if prefix <= 128 {
            Some(Ipv6Network { ip, prefix })
        } else {
            None
        }
    }

    /// The lowest address of the network.
    pub fn network(&self) -> (r: Ipv6Addr)
        requires
            self.wf(),
        ensures
            r.bits == self.first(),
    {
        proof {
            lemma_first6(*self);
            lemma_powers();
        }
        if self.prefix == 0 {
            proof {
                div_mod::lemma_small_mod(self.ip.bits as nat, power2::pow2(128));
            }
            return Ipv6Addr { bits: 0 };
        }
        let s = power_u128(128 - self.prefix);
        let ip: u128 = self.ip.bits;
        Ipv6Addr { bits: ip - ip % s }
    }

    /// The highest address of the network.
    pub fn broadcast(&self) -> (r: Ipv6Addr)
        requires
            self.wf(),
        ensures
            r.bits == self.last(),
    {
        proof {
            lemma_first6(*self);
            lemma_powers();
        }
        if self.prefix == 0 {
            proof {
                div_mod::lemma_small_mod(self.ip.bits as nat, power2::pow2(128));
            }
            return Ipv6Addr { bits: u128::MAX };
        }
        let s = power_u128(128 - self.prefix);
        let ip: u128 = self.ip.bits;
        Ipv6Addr { bits: ip - ip % s + (s - 1) }
    }

    /// Whether the address lies in the network.
    pub fn contains(&self, a: Ipv6Addr) -> (r: bool)
        requires
            self.wf(),
        ensures
            r == self.holds(a),
    {
        let low = self.network();
        let high = self.broadcast();
        low.bits <= a.bits && a.bits <= high.bits
    }
}

/// The octet of an address at a place, counted from the highest.
pub open spec fn octet(bits: u32, i: int) -> int {
    if i == 0 {
        bits as int / 0x100_0000
    } else if i == 1 {
        bits as int / 0x1_0000 % 256
    } else if i == 2 {
        bits as int / 0x100 % 256
    } else {
        bits as int % 256
    }
}

/// The text of an IPv4 address: its octets in decimal, with dots between them.
pub open spec fn ipv4_text(a: Ipv4Addr) -> Seq<char> {
    text::decimal(octet(a.bits, 0) as nat) + "."@ + text::decimal(octet(a.bits, 1) as nat) + "."@
        + text::decimal(octet(a.bits, 2) as nat) + "."@ + text::decimal(octet(a.bits, 3) as nat)
}

/// The octet that a text stands for: up to three digits, without leading zeros.
pub open spec fn octet_of(p: Seq<char>) -> Option<int> {
    if text::all_digits(p) && p.len() <= 3 && (p.len() == 1 || p[0] != '0') && text::digits_value(p)
        <= 255 {
        Some(text::digits_value(p))
    } else {
        None
    }
}

/// The IPv4 address that a text stands for: four octets in decimal, with dots between them.
pub open spec fn ipv4_of(s: Seq<char>) -> Option<Ipv4Addr> {
    let p = text::split_on(s, '.');
    if p.len() != 4 {
        None
    } else {
        match (octet_of(p[0]), octet_of(p[1]), octet_of(p[2]), octet_of(p[3])) {
            (Some(a), Some(b), Some(c), Some(d)) => Some(
                Ipv4Addr { bits: (a * 0x100_0000 + b * 0x1_0000 + c * 0x100 + d) as u32 },
            ),
            _ => None,
        }
    }
}

fn parse_octet(s: &str) -> (r: Option<u8>)
    ensures
        match r {
            Some(v) => octet_of(s@) == Some(v as int),
            None => octet_of(s@) is None,
        },
{
    let v = chars_of(s);
    let n: usize = v.len();
    if n == 0 || n > 3 {
        return None;
    }
    if n > 1 && v[0] == '0' {
        return None;
    }
    let mut value: u32 = 0;
    for i in 0..n
        invariant
            n == v@.len(),
            n <= 3,
            i <= n,
            forall|j: int| 0 <= j < i ==> text::is_digit(#[trigger] v@[j]),
            value == text::digits_value(v@.take(i as int)),
            i == 0 ==> value == 0,
            i == 1 ==> value <= 9,
            i == 2 ==> value <= 99,
            i == 3 ==> value <= 999,
            v@ == s@,
    {
        let c: char = v[i];
        if c < '0' || c > '9' {
            assert(!text::is_digit(v@[i as int]));
            return None;
        }
        proof {
            assert(v@.take(i + 1).drop_last() =~= v@.take(i as int));
            assert(v@.take(i + 1).last() == c);
        }
        value = value * 10 + (c as u32 - '0' as u32);
    }
    assert(v@.take(n as int) =~= v@);
    if value <= 255 {
        Some(value as u8)
    } else {
        None
    }
}

impl Ipv4Addr {
    /// The text of the address.
    pub fn to_text(&self) -> (r: String)
        ensures
            r@ == ipv4_text(*self),
    {
        let b: u64 = self.bits as u64;
        let mut s = to_decimal(b / 0x100_0000);
        s.append(".");
        s.append(to_decimal(b / 0x1_0000 % 256).as_str());
        s.append(".");
        s.append(to_decimal(b / 0x100 % 256).as_str());
        s.append(".");
        s.append(to_decimal(b % 256).as_str());
        s
    }

    /// The address that a text stands for.
    pub fn parse(s: &str) -> (r: Option<Ipv4Addr>)
        ensures
            r == ipv4_of(s@),
    {
        let p = split_char(s, '.');
        let ghost parts = text::split_on(s@, '.');
        assert(text::texts(p@).len() == p@.len());
        if p.len() != 4 {
            return None;
        }
        assert(text::texts(p@)[0] == p@[0]@);
        assert(text::texts(p@)[1] == p@[1]@);
        assert(text::texts(p@)[2] == p@[2]@);
        assert(text::texts(p@)[3] == p@[3]@);
        match (
            parse_octet(p[0].as_str()),
            parse_octet(p[1].as_str()),
            parse_octet(p[2].as_str()),
            parse_octet(p[3].as_str()),
        ) {
            (Some(a), Some(b), Some(c), Some(d)) => Some(Ipv4Addr::new(a, b, c, d)),
            _ => None,
        }
    }
}

/// One of the four octets of an address, the most significant first.
proof fn lemma_octet_text(n: nat)
    requires
        n <= 255,
    ensures
        octet_of(text::decimal(n)) == Some(n as int),
        !text::decimal(n).contains('.'),
{
    text::lemma_decimal_digits(n);
    let s = text::decimal(n);
    reveal_with_fuel(text::decimal, 4);
    if n < 10 {
        assert(s.len() == 1);
    } else if n < 100 {
        assert(text::decimal(n / 10).len() == 1);
    } else {
        assert(text::decimal(n / 10 / 10).len() == 1);
        assert(text::decimal(n / 10).len() == 2);
    }
    assert forall|i: int| 0 <= i < s.len() implies s[i] != '.' by {
        assert(text::is_digit(s[i]));
    }
}

/// The text of an address begins and ends with a digit.
pub proof fn lemma_address_text(a: Ipv4Addr)
    ensures
        ipv4_text(a).len() > 0,
        text::is_digit(ipv4_text(a)[0]),
        text::is_digit(ipv4_text(a).last()),
{
    let w = text::decimal(octet(a.bits, 0) as nat);
    let z = text::decimal(octet(a.bits, 3) as nat);
    text::lemma_decimal_digits(octet(a.bits, 0) as nat);
    text::lemma_decimal_digits(octet(a.bits, 3) as nat);
    assert(ipv4_text(a)[0] == w[0]);
    assert(ipv4_text(a).last() == z.last());
    assert(text::is_digit(w[0]));
    assert(text::is_digit(z[z.len() - 1]));
}

/// Splitting a text of four pieces.
proof fn lemma_four_pieces(w: Seq<char>, x: Seq<char>, y: Seq<char>, z: Seq<char>)
    requires
        !w.contains('.'),
        !x.contains('.'),
        !y.contains('.'),
        !z.contains('.'),
    ensures
        text::split_on(w + "."@ + x + "."@ + y + "."@ + z, '.') == seq![w, x, y, z],
{
    reveal_strlit(".");
    let dot = seq!['.'];
    assert("."@ =~= dot);
    let yz = y + dot + z;
    let xyz = x + dot + yz;
    assert(w + "."@ + x + "."@ + y + "."@ + z =~= w + dot + xyz);
    text::lemma_split_none(z, '.');
    text::lemma_split_first(y, z, '.');
    assert(text::split_on(yz, '.') =~= seq![y, z]);
    text::lemma_split_first(x, yz, '.');
    assert(text::split_on(xyz, '.') =~= seq![x, y, z]);
    text::lemma_split_first(w, xyz, '.');
    assert(text::split_on(w + dot + xyz, '.') =~= seq![w, x, y, z]);
}

/// The text of an address is read back as the address.
pub proof fn law_address_text_is_read_back(a: Ipv4Addr)
    ensures
        ipv4_of(ipv4_text(a)) == Some(a),
{
    let w = text::decimal(octet(a.bits, 0) as nat);
    let x = text::decimal(octet(a.bits, 1) as nat);
    let y = text::decimal(octet(a.bits, 2) as nat);
    let z = text::decimal(octet(a.bits, 3) as nat);
    lemma_octet_text(octet(a.bits, 0) as nat);
    lemma_octet_text(octet(a.bits, 1) as nat);
    lemma_octet_text(octet(a.bits, 2) as nat);
    lemma_octet_text(octet(a.bits, 3) as nat);
    lemma_four_pieces(w, x, y, z);
}

/// A text of up to three digits without leading zeros is the decimal text of its value.
proof fn lemma_octet_is_decimal(p: Seq<char>)
    requires
        octet_of(p) is Some,
    ensures
        p == text::decimal(octet_of(p)->0 as nat),
{
    let v = text::digits_value(p);
    reveal_with_fuel(text::digits_value, 4);
    reveal_with_fuel(text::decimal, 4);
    assert(text::is_digit(p[0]));
    if p.len() == 1 {
        assert(p.drop_last() =~= Seq::<char>::empty());
        assert(p =~= seq![p[0]]);
        assert(text::decimal(v as nat) =~= p);
    } else if p.len() == 2 {
        assert(text::is_digit(p[1]));
        assert(p.drop_last().drop_last() =~= Seq::<char>::empty());
        assert(p.drop_last().last() == p[0]);
        assert(v == (p[0] as int - '0' as int) * 10 + (p[1] as int - '0' as int));
        assert(text::decimal(v as nat) =~= p);
    } else {
        assert(text::is_digit(p[1]));
        assert(text::is_digit(p[2]));
        assert(p.drop_last().drop_last().drop_last() =~= Seq::<char>::empty());
        assert(p.drop_last().drop_last().last() == p[0]);
        assert(p.drop_last().last() == p[1]);
        assert(v == ((p[0] as int - '0' as int) * 10 + (p[1] as int - '0' as int)) * 10 + (
        p[2] as int - '0' as int));
        assert(text::decimal(v as nat / 10) =~= seq![p[0], p[1]]);
        assert(text::decimal(v as nat) =~= p);
    }
}

/// What is read as an address is the text of that address: there is one text for each.
pub proof fn law_only_address_text_is_read(s: Seq<char>)
    ensures
        match ipv4_of(s) {
            Some(a) => s == ipv4_text(a),
            None => forall|a: Ipv4Addr| s != #[trigger] ipv4_text(a),
        },
{
    match ipv4_of(s) {
        Some(a) => {
            let p = text::split_on(s, '.');
            lemma_octet_is_decimal(p[0]);
            lemma_octet_is_decimal(p[1]);
            lemma_octet_is_decimal(p[2]);
            lemma_octet_is_decimal(p[3]);
            lemma_joined(s);
            reveal_strlit(".");
            assert("."@ =~= seq!['.']);
            lemma_value_range(p[0]);
            lemma_value_range(p[1]);
            lemma_value_range(p[2]);
            lemma_value_range(p[3]);
            lemma_octets(
                octet_of(p[0])->0,
                octet_of(p[1])->0,
                octet_of(p[2])->0,
                octet_of(p[3])->0,
            );
            assert(s == ipv4_text(a));
        },
        None => {
            assert forall|a: Ipv4Addr| s != #[trigger] ipv4_text(a) by {
                law_address_text_is_read_back(a);
            }
        },
    }
}

proof fn lemma_octets(a: int, b: int, c: int, d: int)
    requires
        0 <= a <= 255,
        0 <= b <= 255,
        0 <= c <= 255,
        0 <= d <= 255,
    ensures
        ({
            let bits = (a * 0x100_0000 + b * 0x1_0000 + c * 0x100 + d) as u32;
            octet(bits, 0) == a && octet(bits, 1) == b && octet(bits, 2) == c && octet(bits, 3) == d
        }),
{
    let v = a * 0x100_0000 + b * 0x1_0000 + c * 0x100 + d;
    let v2 = a * 0x100 + b;
    let v1 = v2 * 0x100 + c;
    div_mod::lemma_fundamental_div_mod_converse(v, 0x100, v1, d);
    div_mod::lemma_fundamental_div_mod_converse(v, 0x1_0000, v2, c * 0x100 + d);
    div_mod::lemma_fundamental_div_mod_converse(v, 0x100_0000, a, b * 0x1_0000 + c * 0x100 + d);
    div_mod::lemma_fundamental_div_mod_converse(v1, 0x100, v2, c);
    div_mod::lemma_fundamental_div_mod_converse(v2, 0x100, a, b);
}

proof fn lemma_value_range(p: Seq<char>)
    requires
        octet_of(p) is Some,
    ensures
        0 <= octet_of(p)->0 <= 255,
{
    text::lemma_digits_value_grows(p, 0);
    assert(p.take(0) =~= Seq::<char>::empty());
}

/// Four pieces make the text that was split.
proof fn lemma_joined(s: Seq<char>)
    requires
        text::split_on(s, '.').len() == 4,
    ensures
        ({
            let p = text::split_on(s, '.');
            let dot = seq!['.'];
            s == p[0] + dot + p[1] + dot + p[2] + dot + p[3]
        }),
{
    let p = text::split_on(s, '.');
    let s1 = lemma_split_off(s);
    let s2 = lemma_split_off(s1);
    let s3 = lemma_split_off(s2);
    assert(text::split_on(s1, '.') =~= p.skip(1));
    assert(text::split_on(s2, '.') =~= p.skip(2));
    assert(text::split_on(s3, '.') =~= p.skip(3));
    text::lemma_split_step(s3, '.');
    text::lemma_index_from(s3, '.', 0);
    if text::index_from(s3, '.', 0) < s3.len() {
        text::lemma_split_step(s3.skip(text::index_from(s3, '.', 0) + 1), '.');
    }
    assert(p[3] == s3);
    let dot = seq!['.'];
    assert(s =~= p[0] + dot + p[1] + dot + p[2] + dot + p[3]);
}

/// The first piece and the rest of a text that has more than one piece.
proof fn lemma_split_off(s: Seq<char>) -> (rest: Seq<char>)
    requires
        text::split_on(s, '.').len() > 1,
    ensures
        s == text::split_on(s, '.')[0] + seq!['.'] + rest,
        text::split_on(s, '.') == seq![text::split_on(s, '.')[0]] + text::split_on(rest, '.'),
{
    text::lemma_index_from(s, '.', 0);
    text::lemma_split_step(s, '.');
    let i = text::index_from(s, '.', 0);
    let rest = s.skip(i + 1);
    assert(i < s.len());
    assert(s =~= s.take(i) + seq!['.'] + rest);
    rest
}

/// The text of a network: its address, a slash and the length of the network part.
pub open spec fn ipv4_network_text(n: Ipv4Network) -> Seq<char> {
    ipv4_text(n.ip) + "/"@ + text::decimal(n.prefix as nat)
}

/// Whether the character occurs in the text of a network.
pub open spec fn network_character(c: char) -> bool {
    text::is_digit(c) || c == '.' || c == '/'
}

/// The text of a network is made of digits, dots and a slash.
pub proof fn lemma_network_characters(n: Ipv4Network)
    ensures
        ipv4_network_text(n).len() > 0,
        forall|i: int|
            0 <= i < ipv4_network_text(n).len() ==> network_character(
                #[trigger] ipv4_network_text(n)[i],
            ),
        !ipv4_network_text(n).contains('\n'),
{
    let o0 = octet(n.ip.bits, 0) as nat;
    let o1 = octet(n.ip.bits, 1) as nat;
    let o2 = octet(n.ip.bits, 2) as nat;
    let o3 = octet(n.ip.bits, 3) as nat;
    text::lemma_decimal_digits(o0);
    text::lemma_decimal_digits(o1);
    text::lemma_decimal_digits(o2);
    text::lemma_decimal_digits(o3);
    text::lemma_decimal_digits(n.prefix as nat);
    reveal_strlit(".");
    reveal_strlit("/");
    let s0 = text::decimal(o0);
    let s1 = s0 + "."@;
    let s2 = s1 + text::decimal(o1);
    let s3 = s2 + "."@;
    let s4 = s3 + text::decimal(o2);
    let s5 = s4 + "."@;
    let s6 = s5 + text::decimal(o3);
    let s7 = s6 + "/"@;
    lemma_characters(Seq::empty(), s0);
    assert(Seq::<char>::empty() + s0 =~= s0);
    lemma_characters(s0, "."@);
    lemma_characters(s1, text::decimal(o1));
    lemma_characters(s2, "."@);
    lemma_characters(s3, text::decimal(o2));
    lemma_characters(s4, "."@);
    lemma_characters(s5, text::decimal(o3));
    lemma_characters(s6, "/"@);
    lemma_characters(s7, text::decimal(n.prefix as nat));
    let t = ipv4_network_text(n);
    assert(t == s7 + text::decimal(n.prefix as nat));
    if t.contains('\n') {
        let i = choose|i: int| 0 <= i < t.len() && t[i] == '\n';
        assert(network_character(t[i]));
    }
}

proof fn lemma_characters(a: Seq<char>, b: Seq<char>)
    requires
        forall|i: int| 0 <= i < a.len() ==> network_character(#[trigger] a[i]),
        forall|i: int| 0 <= i < b.len() ==> network_character(#[trigger] b[i]),
    ensures
        forall|i: int| 0 <= i < (a + b).len() ==> network_character(#[trigger] (a + b)[i]),
{
    assert forall|i: int| 0 <= i < (a + b).len() implies network_character(
        #[trigger] (a + b)[i],
    ) by {
        if i < a.len() {
            assert((a + b)[i] == a[i]);
        } else {
            assert((a + b)[i] == b[i - a.len()]);
        }
    }
}

/// The address and prefix length that a text stands for.
pub uninterp spec fn cidr4(s: Seq<char>) -> Option<(u32, u8)>;

/// `ipnetwork::Ipv4Network::from_str`: the result depends on the text alone. The length of a
/// network part is at most 32, and the text that a network is written as is read back.
#[verifier::external_body]
fn parse_cidr4(s: &str) -> (r: Option<(u32, u8)>)
    ensures
        r == cidr4(s@),
        r matches Some(n) ==> n.1 <= 32,
        forall|n: Ipv4Network|
            n.wf() && s@ == #[trigger] ipv4_network_text(n) ==> r == Some((n.ip.bits, n.prefix)),
{
    let n: ipnetwork::Ipv4Network = s.parse().ok()?;
    Some((u32::from(n.ip()), n.prefix()))
}

/// The address and prefix length that a text stands for.
pub uninterp spec fn cidr6(s: Seq<char>) -> Option<(u128, u8)>;

/// `ipnetwork::Ipv6Network::from_str`: the result depends on the text alone. The length of a
/// network part is at most 128.
#[verifier::external_body]
fn parse_cidr6(s: &str) -> (r: Option<(u128, u8)>)
    ensures
        r == cidr6(s@),
        r matches Some(n) ==> n.1 <= 128,
{
    let n: ipnetwork::Ipv6Network = s.parse().ok()?;
    Some((u128::from(n.ip()), n.prefix()))
}

/// The text of an IPv6 address.
pub uninterp spec fn ipv6_text(bits: u128) -> Seq<char>;

/// `Display` of the standard library's `Ipv6Addr`, which `ipnetwork::Ipv6Network::ip` gives
/// back: the text depends on the address alone. It is in the style of RFC 5952, so it is on one
/// line.
#[verifier::external_body]
fn ipv6_to_text(bits: u128) -> (r: String)
    ensures
        r@ == ipv6_text(bits),
        !r@.contains('\n'),
{
    ipnetwork::Ipv6Network::new(bits.into(), 128).unwrap().ip().to_string()
}

/// The text of a network: its address, a slash and the length of the network part.
pub open spec fn ipv6_network_text(n: Ipv6Network) -> Seq<char> {
    ipv6_text(n.ip.bits) + "/"@ + text::decimal(n.prefix as nat)
}

impl Ipv6Addr {
    /// The text of the address.
    pub fn to_text(&self) -> (r: String)
        ensures
            r@ == ipv6_text(self.bits),
            !r@.contains('\n'),
    {
        ipv6_to_text(self.bits)
    }
}

/// The IPv6 address that a text stands for: what the text without a slash is as a network.
pub open spec fn ipv6_of(s: Seq<char>) -> Option<Ipv6Addr> {
    match cidr6(s) {
        Some(n) => if s.contains('/') {
            None
        } else {
            Some(Ipv6Addr { bits: n.0 })
        },
        None => None,
    }
}

impl Ipv6Addr {
    /// The address that a text stands for.
    pub fn parse(s: &str) -> (r: Option<Ipv6Addr>)
        ensures
            r == ipv6_of(s@),
    {
        let v = text::chars_of(s);
        let at = text::find_char(&v, '/', 0);
        proof {
            text::lemma_index_from(s@, '/', 0);
        }
        if at < v.len() {
            assert(s@.contains('/'));
            return None;
        }
        assert(!s@.contains('/'));
        match parse_cidr6(s) {
            Some(n) => Some(Ipv6Addr { bits: n.0 }),
            None => None,
        }
    }
}

/// The network that a text stands for.
pub open spec fn network4(s: Seq<char>) -> Option<Ipv4Network> {
    match cidr4(s) {
        Some(n) => Some(Ipv4Network { ip: Ipv4Addr { bits: n.0 }, prefix: n.1 }),
        None => None,
    }
}

/// The network that a text stands for.
pub open spec fn network6(s: Seq<char>) -> Option<Ipv6Network> {
    match cidr6(s) {
        Some(n) => Some(Ipv6Network { ip: Ipv6Addr { bits: n.0 }, prefix: n.1 }),
        None => None,
    }
}

impl Ipv4Network {
    /// The network that a text stands for.
    pub fn parse(s: &str) -> (r: Option<Ipv4Network>)
        ensures
            r == network4(s@),
            r matches Some(n) ==> n.wf(),
            forall|n: Ipv4Network|
                n.wf() && s@ == #[trigger] ipv4_network_text(n) ==> r == Some(n),
    {
        match parse_cidr4(s) {
            Some((bits, prefix)) => Some(Ipv4Network { ip: Ipv4Addr { bits }, prefix }),
            None => None,
        }
    }

    /// The text of the network.
    pub fn to_text(&self) -> (r: String)
        ensures
            r@ == ipv4_network_text(*self),
    {
        concat3(self.ip.to_text().as_str(), "/", to_decimal(self.prefix as u64).as_str())
    }
}

impl Ipv6Network {
    /// The text of the network.
    pub fn to_text(&self) -> (r: String)
        ensures
            r@ == ipv6_network_text(*self),
            !r@.contains('\n'),
            r@.len() > 0,
            r@.last() != '\r',
    {
        let ip = self.ip.to_text();
        let r = concat3(ip.as_str(), "/", to_decimal(self.prefix as u64).as_str());
        proof {
            let d = text::decimal(self.prefix as nat);
            text::lemma_decimal_digits(self.prefix as nat);
            reveal_strlit("/");
            assert(r@.last() == d.last());
            assert(text::is_digit(d[d.len() - 1]));
            assert forall|i: int| 0 <= i < r@.len() implies r@[i] != '\n' by {
                if i < ip@.len() {
                    assert(r@[i] == ip@[i]);
                    assert(ip@.contains(ip@[i]));
                } else if i > ip@.len() {
                    assert(r@[i] == d[i - ip@.len() - 1]);
                    assert(text::is_digit(d[i - ip@.len() - 1]));
                }
            }
        }
        r
    }

    /// The network that a text stands for.
    pub fn parse(s: &str) -> (r: Option<Ipv6Network>)
        ensures
            r == network6(s@),
            r matches Some(n) ==> n.wf(),
    {
        match parse_cidr6(s) {
            Some((bits, prefix)) => Some(Ipv6Network { ip: Ipv6Addr { bits }, prefix }),
            None => None,
        }
    }
}

/// The network of an address and a prefix is the block of its size, beginning at a multiple of it,
/// in which the address lies: its first address is the network's, its last one the broadcast's,
/// and those between belong to it.
pub proof fn law_network_is_the_block_of_its_address(
    n: Ipv4Network,
    a: Ipv4Addr,
    first: Ipv4Addr,
    last: Ipv4Addr,
    inside: bool,
)
    requires
        call_ensures(Ipv4Network::network, (&n,), first),
        call_ensures(Ipv4Network::broadcast, (&n,), last),
        call_ensures(Ipv4Network::contains, (&n, a), inside),
        n.prefix <= 32,
    ensures
        ({
            let size = power2::pow2((32 - n.prefix) as nat) as int;
            &&& first.bits as int % size == 0
            &&& first.bits <= n.ip.bits <= last.bits
            &&& last.bits - first.bits + 1 == size
            &&& inside <==> first.bits <= a.bits <= last.bits
        }),
{
    let size = power2::pow2((32 - n.prefix) as nat) as int;
    power2::lemma_pow2_pos((32 - n.prefix) as nat);
    let x = n.ip.bits as int;
    div_mod::lemma_mod_bound(x, size);
    div_mod::lemma_fundamental_div_mod(x, size);
    div_mod::lemma_mod_multiples_basic(x / size, size);
    assert(x - x % size == (x / size) * size) by (nonlinear_arith)
        requires
            x == size * (x / size) + x % size,
    ;
}

/// The same of networks of the longer addresses.
pub proof fn law_long_network_is_the_block_of_its_address(
    n: Ipv6Network,
    a: Ipv6Addr,
    first: Ipv6Addr,
    last: Ipv6Addr,
    inside: bool,
)
    requires
        call_ensures(Ipv6Network::network, (&n,), first),
        call_ensures(Ipv6Network::broadcast, (&n,), last),
        call_ensures(Ipv6Network::contains, (&n, a), inside),
        n.prefix <= 128,
    ensures
        ({
            let size = power2::pow2((128 - n.prefix) as nat) as int;
            &&& first.bits as int % size == 0
            &&& first.bits <= n.ip.bits <= last.bits
            &&& last.bits - first.bits + 1 == size
            &&& inside <==> first.bits <= a.bits <= last.bits
        }),
{
    let size = power2::pow2((128 - n.prefix) as nat) as int;
    power2::lemma_pow2_pos((128 - n.prefix) as nat);
    let x = n.ip.bits as int;
    div_mod::lemma_mod_bound(x, size);
    div_mod::lemma_fundamental_div_mod(x, size);
    div_mod::lemma_mod_multiples_basic(x / size, size);
    assert(x - x % size == (x / size) * size) by (nonlinear_arith)
        requires
            x == size * (x / size) + x % size,
    ;
}

/// The text of an address is its four numbers, the highest first, with dots between them.
pub proof fn law_address_text_is_its_four_numbers(
    a: u8,
    b: u8,
    c: u8,
    d: u8,
    made: Ipv4Addr,
    shown: String,
)
    requires
        call_ensures(Ipv4Addr::new, (a, b, c, d), made),
        call_ensures(Ipv4Addr::to_text, (&made,), shown),
    ensures
        shown@ == text::decimal(a as nat) + "."@ + text::decimal(b as nat) + "."@ + text::decimal(
            c as nat,
        ) + "."@ + text::decimal(d as nat),
{
    lemma_octets(a as int, b as int, c as int, d as int);
}

/// The text of a network is that of its address, and its prefix behind a slash.
pub proof fn law_network_text_is_address_and_prefix(
    n: Ipv4Network,
    shown: String,
    of_address: String,
)
    requires
        call_ensures(Ipv4Network::to_text, (&n,), shown),
        call_ensures(Ipv4Addr::to_text, (&n.ip,), of_address),
    ensures
        shown@ == of_address@ + "/"@ + text::decimal(n.prefix as nat),
{
}

} // verus!
