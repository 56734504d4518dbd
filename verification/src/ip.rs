//! Addresses and networks as plain integers.
//!
//! An address is the number its octets spell in network order; a network is
//! its first address and a prefix length. All block arithmetic is stated over
//! `pow2` and integer division, so that contracts read as the usual textbook
//! definitions.

use vstd::arithmetic::div_mod::{
    lemma_fundamental_div_mod, lemma_fundamental_div_mod_converse, lemma_mod_multiples_basic,
    lemma_small_mod,
};
use vstd::arithmetic::power2::{lemma2_to64, lemma_pow2_adds, lemma_pow2_pos, pow2};
use vstd::bits::lemma_u128_shr_is_div;
use vstd::prelude::*;

use crate::text::has_char;
use cidr_utils::cidr::{IpCidr, IpInet};
use core::str::FromStr;

verus! {

/// An IP address, held as the integer its octets spell in network order.
#[derive(Clone, Copy, Debug, PartialEq, Eq, Structural, Hash)]
pub enum IpAddress {
    V4(u32),
    V6(u128),
}

impl IpAddress {
    /// Number of bits in an address of this family.
    pub open spec fn bits(self) -> nat {
        match self {
            IpAddress::V4(_) => 32,
            IpAddress::V6(_) => 128,
        }
    }

    /// The address as a number.
    pub open spec fn value(self) -> nat {
        match self {
            IpAddress::V4(v) => v as nat,
            IpAddress::V6(v) => v as nat,
        }
    }

    /// Whether `self` and `other` are of one family.
    pub open spec fn same_family(self, other: IpAddress) -> bool {
        self.bits() == other.bits()
    }

    /// The address of the family of `self` whose number is `value`.
    pub open spec fn with_value(self, value: nat) -> IpAddress {
        match self {
            IpAddress::V4(_) => IpAddress::V4(value as u32),
            IpAddress::V6(_) => IpAddress::V6(value as u128),
        }
    }

    /// The IPv4 address `a.b.c.d`.
    pub fn v4(a: u8, b: u8, c: u8, d: u8) -> (ip: IpAddress)
        ensures
            ip == IpAddress::V4((a * 0x100_0000 + b * 0x1_0000 + c * 0x100 + d) as u32),
    {
        let a32: u32 = a as u32;
        let b32: u32 = b as u32;
        let c32: u32 = c as u32;
        let d32: u32 = d as u32;
        IpAddress::V4(a32 * 0x100_0000 + b32 * 0x1_0000 + c32 * 0x100 + d32)
    }

    /// The address as a number, widened to the larger family's integer.
    pub fn number(&self) -> (n: u128)
        ensures
            n == self.value(),
    {
        match self {
            IpAddress::V4(v) => *v as u128,
            IpAddress::V6(v) => *v,
        }
    }

    /// Number of bits in an address of this family.
    pub fn width(&self) -> (w: u8)
        ensures
            w == self.bits(),
    {
        match self {
            IpAddress::V4(_) => 32,
            IpAddress::V6(_) => 128,
        }
    }

    /// The address of the same family whose number is `value`.
    fn renumbered(&self, value: u128) -> (ip: IpAddress)
        requires
            value < pow2(self.bits()),
        ensures
            ip == self.with_value(value as nat),
            ip.value() == value,
            ip.same_family(*self),
    {
        proof {
            lemma_pow2_values();
        }
        match self {
            IpAddress::V4(_) => IpAddress::V4(value as u32),
            IpAddress::V6(_) => IpAddress::V6(value),
        }
    }
}

/// Number of host bits that a prefix of `prefix` bits leaves in an address of
/// `bits` bits; a prefix longer than the address leaves none.
pub open spec fn host_bits(bits: nat, prefix: nat) -> nat {
    if prefix <= bits {
        (bits - prefix) as nat
    } else {
        0
    }
}

/// Number of addresses in a block with that many host bits.
pub open spec fn block_len(bits: nat, prefix: nat) -> nat {
    pow2(host_bits(bits, prefix))
}

/// The two powers of two that bound the address families.
pub proof fn lemma_pow2_values()
    ensures
        pow2(0) == 1,
        pow2(32) == 0x1_0000_0000,
        pow2(64) == 0x1_0000_0000_0000_0000,
        pow2(128) == 0x1_0000_0000_0000_0000_0000_0000_0000_0000,
{
    lemma2_to64();
    lemma_pow2_adds(64, 64);
}

/// `pow2` does not decrease.
pub proof fn lemma_pow2_monotone(a: nat, b: nat)
    requires
        a <= b,
    ensures
        pow2(a) <= pow2(b),
        pow2(a) >= 1,
{
    lemma_pow2_pos(a);
    lemma_pow2_pos((b - a) as nat);
    lemma_pow2_adds(a, (b - a) as nat);
    assert(pow2(a) <= pow2(a) * pow2((b - a) as nat)) by (nonlinear_arith)
        requires
            pow2(a) >= 1,
            pow2((b - a) as nat) >= 1,
    ;
}

/// The largest offset inside a block: one less than its length.
fn host_span(width: u8, prefix: u8) -> (span: u128)
    requires
        width == 32 || width == 128,
    ensures
        span == block_len(width as nat, prefix as nat) - 1,
{
    proof {
        lemma_pow2_values();
    }
    if prefix >= width {
        0
    } else {
        let free: u8 = width - prefix;
        let shift: u128 = (128 - free) as u128;
        if shift == 0 {
            u128::MAX
        } else {
            proof {
                let s = shift as nat;
                let f = free as nat;
                lemma_u128_shr_is_div(u128::MAX, shift);
                lemma_pow2_adds(s, f);
                lemma_pow2_pos(s);
                lemma_pow2_pos(f);
                // u128::MAX = (pow2(f) - 1) * pow2(s) + (pow2(s) - 1)
                assert(u128::MAX as int == (pow2(f) - 1) * pow2(s) + (pow2(s) - 1))
                    by (nonlinear_arith)
                    requires
                        pow2(s) * pow2(f) == 0x1_0000_0000_0000_0000_0000_0000_0000_0000,
                ;
                lemma_fundamental_div_mod_converse(
                    u128::MAX as int,
                    pow2(s) as int,
                    pow2(f) - 1,
                    pow2(s) - 1,
                );
            }
            u128::MAX >> shift
        }
    }
}

/// A host address together with the prefix length of the network it lies in.
#[derive(Clone, Copy, Debug, PartialEq, Eq, Structural)]
pub struct Inet {
    pub address: IpAddress,
    pub prefix: u8,
}

/// A CIDR block: its first address and its prefix length.
#[derive(Clone, Copy, Debug, PartialEq, Eq, Structural)]
pub struct Network {
    pub first: IpAddress,
    pub prefix: u8,
}

impl Inet {
    /// The prefix is no longer than the address.
    pub open spec fn wf(self) -> bool {
        self.prefix <= self.address.bits()
    }

    /// The block around the address: the address with its host bits cleared,
    /// under the same prefix.
    pub open spec fn spec_network(self) -> Network {
        let len = block_len(self.address.bits(), self.prefix as nat);
        let value = self.address.value();
        Network {
            first: self.address.with_value((value - value % len) as nat),
            prefix: self.prefix,
        }
    }

    /// The host address `address` under a prefix of `prefix` bits, if the
    /// prefix fits the family.
    pub fn new(address: IpAddress, prefix: u8) -> (r: Option<Inet>)
        ensures
            r == if prefix <= address.bits() {
                Some(Inet { address, prefix })
            } else {
                None
            },
    {
        if prefix <= address.width() {
            Some(Inet { address, prefix })
        } else {
            None
        }
    }

    /// The network that the host lies in: under the same prefix, with the
    /// largest multiple of the block length below the address as its first
    /// address.
    pub fn network(&self) -> (n: Network)
        ensures
            n == self.spec_network(),
            self.wf() ==> n.wf() && n.spec_contains(self.address) && n.first.value()
                == self.address.value() - self.address.value() % n.len(),
    {
        let span = host_span(self.address.width(), self.prefix);
        let value = self.address.number();
        proof {
            lemma_pow2_values();
            lemma_pow2_monotone(
                host_bits(self.address.bits(), self.prefix as nat),
                self.address.bits(),
            );
            if self.wf() {
                lemma_network_aligned(*self);
            }
        }
        let base: u128 = if span == u128::MAX {
            proof {
                lemma_small_mod(
                    value as nat,
                    block_len(self.address.bits(), self.prefix as nat),
                );
            }
            0
        } else {
            value - value % (span + 1)
        };
        Network { first: self.address.renumbered(base), prefix: self.prefix }
    }
}

/// The address of a host with its host bits cleared is a multiple of the
/// block length and lies at most one block below the host.
pub proof fn lemma_network_aligned(inet: Inet)
    requires
        inet.wf(),
    ensures
        inet.spec_network().wf(),
        inet.spec_network().spec_contains(inet.address),
        inet.spec_network().first.value() == inet.address.value() - inet.address.value()
            % block_len(inet.address.bits(), inet.prefix as nat),
{
    let bits = inet.address.bits();
    let len = block_len(bits, inet.prefix as nat);
    let value = inet.address.value();
    lemma_pow2_values();
    lemma_pow2_monotone(host_bits(bits, inet.prefix as nat), bits);
    lemma_fundamental_div_mod(value as int, len as int);
    let base = value - value % len;
    assert(0 <= value % len < len);
    assert(base == len * (value as int / len as int));
    lemma_mod_multiples_basic(value as int / len as int, len as int);
    assert(base % (len as int) == 0) by (nonlinear_arith)
        requires
            base == len * (value as int / len as int),
            ((value as int / len as int) * len) % (len as int) == 0,
    ;
    assert(inet.address.with_value(base as nat).value() == base);
}

impl Network {
    /// The prefix is no longer than the address, and the first address has no
    /// host bit set.
    pub open spec fn wf(self) -> bool {
        &&& self.prefix <= self.first.bits()
        &&& self.first.value() % self.len() == 0
    }

    /// Number of addresses in the block.
    pub open spec fn len(self) -> nat {
        block_len(self.first.bits(), self.prefix as nat)
    }

    /// The last address of the block.
    pub open spec fn last(self) -> IpAddress {
        self.first.with_value((self.first.value() + self.len() - 1) as nat)
    }

    /// Whether `ip` lies in the block.
    pub open spec fn spec_contains(self, ip: IpAddress) -> bool {
        &&& ip.same_family(self.first)
        &&& self.first.value() <= ip.value() < self.first.value() + self.len()
    }

    /// The addresses of the block, ascending from the first.
    pub open spec fn spec_addresses(self) -> Seq<IpAddress> {
        Seq::new(self.len(), |i: int| self.first.with_value((self.first.value() + i) as nat))
    }

    /// The block `first/prefix`, if the prefix fits the family and `first` has
    /// no host bit set.
    pub fn new(first: IpAddress, prefix: u8) -> (r: Option<Network>)
        ensures
            r == if (Network { first, prefix }).wf() {
                Some(Network { first, prefix })
            } else {
                None
            },
    {
        if prefix > first.width() {
            return None;
        }
        let span = host_span(first.width(), prefix);
        let value = first.number();
        proof {
            lemma_pow2_values();
            lemma_pow2_monotone(host_bits(first.bits(), prefix as nat), first.bits());
        }
        let aligned = if span == u128::MAX {
            proof {
                lemma_small_mod(value as nat, block_len(first.bits(), prefix as nat));
            }
            value == 0
        } else {
            value % (span + 1) == 0
        };
        if aligned {
            Some(Network { first, prefix })
        } else {
            None
        }
    }

    /// The block that holds `ip` alone.
    pub fn host(ip: IpAddress) -> (n: Network)
        ensures
            n == (Network { first: ip, prefix: ip.bits() as u8 }),
            n.wf(),
            n.len() == 1,
            forall|other: IpAddress| n.spec_contains(other) <==> other == ip,
    {
        proof {
            lemma_pow2_values();
        }
        Network { first: ip, prefix: ip.width() }
    }

    /// Whether `ip` lies in the block.
    pub fn contains(&self, ip: &IpAddress) -> (r: bool)
        ensures
            r == self.spec_contains(*ip),
    {
        if self.first.width() != ip.width() {
            return false;
        }
        let span = host_span(self.first.width(), self.prefix);
        let low = self.first.number();
        let value = ip.number();
        low <= value && value - low <= span
    }

    /// The addresses of the block: as many as the block is long, rising by
    /// one from the first.
    pub fn addresses(&self) -> (block: Vec<IpAddress>)
        requires
            self.wf(),
        ensures
            block@ == self.spec_addresses(),
            block@.len() == self.len(),
            forall|i: int|
                0 <= i < block@.len() ==> (#[trigger] block@[i]).same_family(self.first)
                    && block@[i].value() == self.first.value() + i,
    {
        let span = host_span(self.first.width(), self.prefix);
        let low = self.first.number();
        proof {
            lemma_block_fits(*self);
            lemma_pow2_values();
            lemma_block_addresses(*self);
        }
        let mut block: Vec<IpAddress> = Vec::new();
        let mut offset: u128 = 0;
        loop
            invariant_except_break
                offset <= span,
                block@ == self.spec_addresses().take(offset as int),
            invariant
                span == self.len() - 1,
                low == self.first.value(),
                low + span < pow2(self.first.bits()),
                low + span <= u128::MAX,
            ensures
                block@ == self.spec_addresses(),
            decreases span - offset,
        {
            block.push(self.first.renumbered(low + offset));
            assert(block@ == self.spec_addresses().take(offset + 1));
            if offset == span {
                assert(self.spec_addresses().take(offset + 1) == self.spec_addresses());
                break ;
            }
            offset = offset + 1;
        }
        block
    }
}

/// A well-formed block ends inside its family's address range.
pub proof fn lemma_block_fits(n: Network)
    requires
        n.wf(),
    ensures
        n.first.value() + n.len() <= pow2(n.first.bits()),
        n.len() >= 1,
{
    let bits = n.first.bits();
    let free = host_bits(bits, n.prefix as nat);
    let len = n.len();
    let value = n.first.value();
    lemma_pow2_values();
    lemma_pow2_monotone(free, bits);
    lemma_pow2_adds(free, (bits - free) as nat);
    lemma_pow2_pos((bits - free) as nat);
    // value = len * q with value < len * pow2(bits - free), so q + 1 <= pow2(bits - free)
    lemma_fundamental_div_mod(value as int, len as int);
    let q = value as int / len as int;
    let top = pow2((bits - free) as nat) as int;
    assert(value < pow2(bits));
    assert(q < top) by (nonlinear_arith)
        requires
            value == len * q,
            value < len * top,
            len >= 1,
    ;
    assert(value + len <= len * top) by (nonlinear_arith)
        requires
            value == len * q,
            q + 1 <= top,
            len >= 1,
    ;
}

/// The addresses of a well-formed block are those of its family whose
/// numbers rise by one from the first address to the last; the block holds
/// exactly these.
pub proof fn lemma_block_addresses(n: Network)
    requires
        n.wf(),
    ensures
        n.spec_addresses().len() == pow2((n.first.bits() - n.prefix) as nat),
        forall|i: int|
            0 <= i < n.spec_addresses().len() ==> (#[trigger] n.spec_addresses()[i]).same_family(
                n.first,
            ) && n.spec_addresses()[i].value() == n.first.value() + i,
        n.spec_addresses().first() == n.first,
        n.spec_addresses().last() == n.last(),
        forall|ip: IpAddress| n.spec_contains(ip) <==> n.spec_addresses().contains(ip),
{
    lemma_block_fits(n);
    lemma_pow2_values();
    let block = n.spec_addresses();
    assert forall|i: int| 0 <= i < block.len() implies (#[trigger] block[i]).same_family(n.first)
        && block[i].value() == n.first.value() + i by {
        assert(n.first.value() + i < pow2(n.first.bits()));
    }
    assert(block[0] == n.first);
    assert forall|ip: IpAddress| n.spec_contains(ip) implies block.contains(ip) by {
        let i = ip.value() - n.first.value();
        assert(block[i].value() == ip.value());
        assert(block[i].same_family(ip));
        assert(block[i] == ip);
    }
    assert forall|ip: IpAddress| block.contains(ip) implies n.spec_contains(ip) by {
        let i = choose|i: int| 0 <= i < block.len() && block[i] == ip;
        assert(block[i].value() == n.first.value() + i);
    }
}

/// What `IpInet::from_str` of the `cidr` crate makes of `text`: the host
/// address and prefix length that it reads, or `None` where it refuses.
pub uninterp spec fn inet_notation(text: Seq<char>) -> Option<Inet>;

/// What `IpCidr::from_str` of the `cidr` crate makes of `text`: the block
/// that it reads, or `None` where it refuses.
pub uninterp spec fn cidr_notation(text: Seq<char>) -> Option<Network>;

/// What `parse_inet` of the `cidr` crate makes of `text` when addresses are
/// read by the standard library's own `FromStr`.
pub uninterp spec fn strict_notation(text: Seq<char>) -> Option<Inet>;

/// The address that a text spells, from what the strict reader made of it: a
/// text with a `/` spells none, any other the address that the reader found.
pub open spec fn literal_of(text: Seq<char>, strict: Option<Inet>) -> Option<IpAddress> {
    if text.contains('/') {
        None
    } else {
        match strict {
            Some(inet) => Some(inet.address),
            None => None,
        }
    }
}

/// The address that `text` spells in the strict syntax of the standard
/// library.
pub open spec fn literal(text: Seq<char>) -> Option<IpAddress> {
    literal_of(text, strict_notation(text))
}

/// Calls `IpInet::from_str`, which reads `address` or `address/length` and
/// accepts IPv4 addresses written with fewer than four octets.
#[verifier::external_body]
pub(crate) fn read_inet(text: &str) -> (r: Option<Inet>)
    ensures
        r == inet_notation(text@),
{
    match IpInet::from_str(text) {
        Ok(IpInet::V4(i)) => Some(
            Inet { address: IpAddress::V4(i.address().into()), prefix: i.network_length() },
        ),
        Ok(IpInet::V6(i)) => Some(
            Inet { address: IpAddress::V6(i.address().into()), prefix: i.network_length() },
        ),
        Err(_) => None,
    }
}

/// Calls `IpCidr::from_str`, which reads like `IpInet::from_str` but refuses
/// an address with a host bit set.
#[verifier::external_body]
pub(crate) fn read_cidr(text: &str) -> (r: Option<Network>)
    ensures
        r == cidr_notation(text@),
{
    match IpCidr::from_str(text) {
        Ok(IpCidr::V4(c)) => Some(
            Network { first: IpAddress::V4(c.first_address().into()), prefix: c.network_length() },
        ),
        Ok(IpCidr::V6(c)) => Some(
            Network { first: IpAddress::V6(c.first_address().into()), prefix: c.network_length() },
        ),
        Err(_) => None,
    }
}

/// Calls `cidr::parsers::parse_inet` with the standard library's `FromStr` as
/// the address reader: without a `/` the text is read as an address by
/// `FromStr` alone and comes back as a host under the full prefix.
#[verifier::external_body]
pub(crate) fn read_strict(text: &str) -> (r: Option<Inet>)
    ensures
        r == strict_notation(text@),
{
    match cidr_utils::cidr::parsers::parse_inet(text, FromStr::from_str) {
        Ok(IpInet::V4(i)) => Some(
            Inet { address: IpAddress::V4(i.address().into()), prefix: i.network_length() },
        ),
        Ok(IpInet::V6(i)) => Some(
            Inet { address: IpAddress::V6(i.address().into()), prefix: i.network_length() },
        ),
        Err(_) => None,
    }
}

/// The address that `text` spells, from what the strict reader made of it.
pub fn literal_from(text: &str, strict: Option<Inet>) -> (r: Option<IpAddress>)
    ensures
        r == literal_of(text@, strict),
{
    if has_char(text, '/') {
        None
    } else {
        match strict {
            Some(inet) => Some(inet.address),
            None => None,
        }
    }
}

/// Reads `text` as a literal address in the strict syntax.
pub fn parse_ip(text: &str) -> (r: Option<IpAddress>)
    ensures
        r == literal(text@),
{
    literal_from(text, read_strict(text))
}

} // verus!
