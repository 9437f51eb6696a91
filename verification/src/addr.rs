//! IP addresses and CIDR blocks as plain integers.

use vstd::arithmetic::div_mod::{
    lemma_fundamental_div_mod, lemma_mod_bound, lemma_mod_multiples_basic, lemma_small_mod,
};
use vstd::arithmetic::mul::lemma_mul_is_commutative;
use vstd::arithmetic::power2::{
    lemma2_to64, lemma_pow2_adds, lemma_pow2_pos, lemma_pow2_strictly_increases, lemma_pow2_unfold,
    pow2,
};
use vstd::prelude::*;

verus! {

/// An IPv4 or IPv6 address, held as the integer its bytes spell in network order.
#[derive(Clone, Copy, Debug, PartialEq, Eq, Hash, Structural)]
pub enum IpAddress {
    V4(u32),
    V6(u128),
}

impl IpAddress {
    /// Number of bits in an address of this family.
    pub open spec fn bit_len(self) -> nat {
        match self {
            IpAddress::V4(_) => 32,
            IpAddress::V6(_) => 128,
        }
    }

    /// The address as a number.
    pub open spec fn value(self) -> int {
        match self {
            IpAddress::V4(bits) => bits as int,
            IpAddress::V6(bits) => bits as int,
        }
    }

    /// Whether two addresses belong to the same family.
    pub open spec fn same_family(self, other: IpAddress) -> bool {
        self.bit_len() == other.bit_len()
    }
}

/// What `ipnet` reads out of a text in CIDR notation: the address written
/// before the slash and the prefix length written after it, and `None` where
/// the text is no such notation.
pub uninterp spec fn cidr_of(text: Seq<char>) -> Option<(IpAddress, u8)>;

/// `IpNet::from_str`: reads a text in CIDR notation. The prefix length it
/// accepts is never longer than an address of the family.
#[verifier::external_body]
fn read_cidr(text: &str) -> (r: Option<(IpAddress, u8)>)
    ensures
        r == cidr_of(text@),
        r matches Some((addr, prefix_len)) ==> prefix_len <= addr.bit_len(),
{
    match text.parse::<ipnet::IpNet>() {
        Ok(ipnet::IpNet::V4(net)) => Some((IpAddress::V4(net.addr().into()), net.prefix_len())),
        Ok(ipnet::IpNet::V6(net)) => Some((IpAddress::V6(net.addr().into()), net.prefix_len())),
        Err(_) => None,
    }
}

/// A CIDR block: the first address of the block and the length of the shared prefix.
#[derive(Clone, Copy, Debug, PartialEq, Eq, Hash, Structural)]
pub struct Network {
    pub addr: IpAddress,
    pub prefix_len: u8,
}

impl Network {
    /// Number of bits left free by the prefix.
    pub open spec fn host_bits(self) -> nat {
        (self.addr.bit_len() - self.prefix_len) as nat
    }

    /// Number of addresses in the block.
    pub open spec fn size(self) -> nat {
        pow2(self.host_bits())
    }

    /// A block is well formed when its prefix fits the family and its first
    /// address has no bit set below the prefix.
    pub open spec fn wf(self) -> bool {
        &&& self.prefix_len <= self.addr.bit_len()
        &&& self.addr.value() % (self.size() as int) == 0
    }

    /// Whether `ip` lies in the block.
    pub open spec fn covers(self, ip: IpAddress) -> bool {
        &&& self.addr.same_family(ip)
        &&& self.addr.value() <= ip.value() < self.addr.value() + self.size()
    }

    /// The block of `prefix_len` leading bits around `addr`.
    pub open spec fn enclosing(addr: IpAddress, prefix_len: u8) -> Network {
        let size = pow2((addr.bit_len() - prefix_len) as nat) as int;
        let first = addr.value() - addr.value() % size;
        Network {
            addr: match addr {
                IpAddress::V4(_) => IpAddress::V4(first as u32),
                IpAddress::V6(_) => IpAddress::V6(first as u128),
            },
            prefix_len,
        }
    }

    /// The block that a text in CIDR notation stands for.
    pub open spec fn parsed(text: Seq<char>) -> Option<Network> {
        match cidr_of(text) {
            Some((addr, prefix_len)) => if prefix_len <= addr.bit_len() {
                Some(Network::enclosing(addr, prefix_len))
            } else {
                None
            },
            None => None,
        }
    }

    /// Reads a block written in CIDR notation, such as `10.0.0.0/8`. Bits
    /// that the address has set below the prefix are cleared.
    pub fn parse(text: &str) -> (r: Option<Network>)
        ensures
            r == Network::parsed(text@),
            r matches Some(net) ==> net.wf(),
    {
        match read_cidr(text) {
            Some((addr, prefix_len)) => Network::new(addr, prefix_len),
            None => None,
        }
    }

    /// Builds the block of `prefix_len` leading bits that holds `addr`,
    /// clearing whatever bits `addr` has below the prefix. There is no such
    /// block when the prefix is longer than the address.
    pub fn new(addr: IpAddress, prefix_len: u8) -> (r: Option<Network>)
        ensures
            r is Some <==> prefix_len <= addr.bit_len(),
            r matches Some(net) ==> net == Network::enclosing(addr, prefix_len) && net.wf()
                && net.covers(addr),
    {
        match addr {
            IpAddress::V4(bits) => {
                if prefix_len > 32 {
                    return None;
                }
                let first = clear_low_bits(bits as u128, (32 - prefix_len) as u32);
                Some(Network { addr: IpAddress::V4(first as u32), prefix_len })
            },
            IpAddress::V6(bits) => {
                if prefix_len > 128 {
                    return None;
                }
                let first = clear_low_bits(bits, (128 - prefix_len) as u32);
                Some(Network { addr: IpAddress::V6(first), prefix_len })
            },
        }
    }
}

/// Two well-formed blocks with the same prefix length that hold a common
/// address are the same block.
pub proof fn lemma_block_determined(a: Network, b: Network, ip: IpAddress)
    requires
        a.wf(),
        b.wf(),
        a.covers(ip),
        b.covers(ip),
        a.prefix_len == b.prefix_len,
    ensures
        a == b,
{
    let size = a.size() as int;
    lemma_pow2_pos(a.host_bits());
    let x = a.addr.value();
    let y = b.addr.value();
    lemma_fundamental_div_mod(x, size);
    lemma_fundamental_div_mod(y, size);
    assert(x == y) by (nonlinear_arith)
        requires
            size > 0,
            x == size * (x / size),
            y == size * (y / size),
            x - y < size,
            y - x < size,
    ;
}

/// `pow2(128)` is one more than the largest `u128`.
pub proof fn lemma_pow2_128()
    ensures
        pow2(128) == u128::MAX + 1,
        pow2(32) == u32::MAX + 1,
{
    lemma2_to64();
    lemma_pow2_adds(64, 64);
    assert(pow2(64) * pow2(64) == 0x1_0000_0000_0000_0000 * 0x1_0000_0000_0000_0000)
        by (nonlinear_arith)
        requires
            pow2(64) == 0x1_0000_0000_0000_0000,
    ;
}

/// Two to the power `e`, for an exponent whose power fits.
fn power_of_two(e: u32) -> (r: u128)
    requires
        e < 128,
    ensures
        r == pow2(e as nat),
{
    let mut r: u128 = 1;
    let mut i: u32 = 0;
    proof {
        lemma2_to64();
    }
    while i < e
        invariant
            i <= e < 128,
            r == pow2(i as nat),
        decreases e - i,
    {
        proof {
            lemma_pow2_unfold((i + 1) as nat);
            lemma_pow2_128();
            if i + 1 < 128 {
                lemma_pow2_strictly_increases((i + 1) as nat, 128);
            }
        }
        r = r * 2;
        i = i + 1;
    }
    r
}

/// Clears the `low` lowest bits of `value`.
fn clear_low_bits(value: u128, low: u32) -> (r: u128)
    requires
        low <= 128,
    ensures
        r == value - (value as int) % (pow2(low as nat) as int),
        (r as int) % (pow2(low as nat) as int) == 0,
        r <= value < r + pow2(low as nat),
{
    let ghost size = pow2(low as nat) as int;
    proof {
        lemma_pow2_pos(low as nat);
        lemma_fundamental_div_mod(value as int, size);
        lemma_mod_bound(value as int, size);
        lemma_mul_is_commutative(size, value as int / size);
        lemma_mod_multiples_basic(value as int / size, size);
    }
    if low >= 128 {
        proof {
            lemma_pow2_128();
            lemma_small_mod(value as nat, size as nat);
        }
        0
    } else {
        let step = power_of_two(low);
        value - value % step
    }
}

} // verus!
