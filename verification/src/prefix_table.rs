//! A table from CIDR blocks to numbers with longest-prefix lookup, kept in
//! an `ipnet_trie::IpnetTrie`.

use crate::addr::{IpAddress, Network};
use vstd::prelude::*;
use vstd::set_lib::*;

verus! {

/// `ipnet_trie::IpnetTrie`, a trie of IPv4 and IPv6 blocks; nothing is
/// known of a trie but what `trie_entries` says it holds.
#[verifier::external_type_specification]
#[verifier::external_body]
#[verifier::reject_recursive_types(T)]
pub struct ExIpnetTrie<T>(ipnet_trie::IpnetTrie<T>);

/// The blocks a trie holds, each with the number stored under it.
pub uninterp spec fn trie_entries(trie: ipnet_trie::IpnetTrie<usize>) -> Map<Network, usize>;

/// Whether some block of `nets` holds `ip`.
pub open spec fn covered(nets: Set<Network>, ip: IpAddress) -> bool {
    exists|net: Network| nets.contains(net) && #[trigger] net.covers(ip)
}

/// Whether `net` is a block of `nets` that holds `ip` and no block of `nets`
/// that holds `ip` has a longer prefix.
pub open spec fn is_longest_cover(nets: Set<Network>, ip: IpAddress, net: Network) -> bool {
    &&& nets.contains(net)
    &&& net.covers(ip)
    &&& forall|other: Network|
        nets.contains(other) && #[trigger] other.covers(ip) ==> other.prefix_len <= net.prefix_len
}

/// The IPv4 addresses, as numbers, that lie in some block of `nets`.
pub open spec fn v4_covered(nets: Set<Network>) -> Set<int> {
    Set::new(|a: int| 0 <= a <= u32::MAX && covered(nets, IpAddress::V4(a as u32)))
}

/// `IpnetTrie::new`: a trie that holds no block.
#[verifier::external_body]
fn trie_new() -> (r: ipnet_trie::IpnetTrie<usize>)
    ensures
        trie_entries(r) == (Map::<Network, usize>::empty()),
{
    ipnet_trie::IpnetTrie::new()
}

/// `IpnetTrie::insert`: stores `value` under `net`, in place of what the
/// trie held under that block, and leaves every other block as it was.
#[verifier::external_body]
fn trie_insert(trie: &mut ipnet_trie::IpnetTrie<usize>, net: Network, value: usize)
    requires
        net.wf(),
    ensures
        trie_entries(*final(trie)) == trie_entries(*old(trie)).insert(net, value),
{
    match net.addr {
        IpAddress::V4(bits) => {
            trie.insert(ipnet::Ipv4Net::new_assert(bits.into(), net.prefix_len), value);
        },
        IpAddress::V6(bits) => {
            trie.insert(ipnet::Ipv6Net::new_assert(bits.into(), net.prefix_len), value);
        },
    }
}

/// `IpnetTrie::longest_match`, asked for the one-address block of `ip`: the
/// most specific block of the trie that holds `ip`, with the number stored
/// under it, and `None` where no block of the trie holds `ip`.
#[verifier::external_body]
fn trie_longest_match(trie: &ipnet_trie::IpnetTrie<usize>, ip: IpAddress) -> (r: Option<
    (Network, usize),
>)
    ensures
        match r {
            Some((net, value)) => is_longest_cover(trie_entries(*trie).dom(), ip, net)
                && trie_entries(*trie)[net] == value,
            None => !covered(trie_entries(*trie).dom(), ip),
        },
{
    let host = match ip {
        IpAddress::V4(bits) => ipnet::IpNet::V4(ipnet::Ipv4Net::new_assert(bits.into(), 32)),
        IpAddress::V6(bits) => ipnet::IpNet::V6(ipnet::Ipv6Net::new_assert(bits.into(), 128)),
    };
    match trie.longest_match(&host) {
        Some((ipnet::IpNet::V4(n), v)) => Some(
            (Network { addr: IpAddress::V4(n.addr().into()), prefix_len: n.prefix_len() }, *v),
        ),
        Some((ipnet::IpNet::V6(n), v)) => Some(
            (Network { addr: IpAddress::V6(n.addr().into()), prefix_len: n.prefix_len() }, *v),
        ),
        None => None,
    }
}

/// `IpnetTrie::ip_count`, its IPv4 part: how many distinct IPv4 addresses the
/// blocks of the trie hold between them.
#[verifier::external_body]
fn trie_v4_count(trie: &ipnet_trie::IpnetTrie<usize>) -> (count: u64)
    ensures
        count == v4_covered(trie_entries(*trie).dom()).len(),
{
    trie.ip_count().ipv4
}

/// A table from well-formed blocks to numbers.
pub struct PrefixTable {
    trie: ipnet_trie::IpnetTrie<usize>,
}

impl PrefixTable {
    /// The blocks of the table, each with the number stored under it.
    pub closed spec fn entries(&self) -> Map<Network, usize> {
        trie_entries(self.trie)
    }

    /// The blocks of the table.
    pub open spec fn nets(&self) -> Set<Network> {
        self.entries().dom()
    }

    /// Every block of the table is well formed.
    pub open spec fn wf(&self) -> bool {
        forall|net: Network| self.nets().contains(net) ==> #[trigger] net.wf()
    }

    /// A table without blocks.
    pub fn new() -> (table: PrefixTable)
        ensures
            table.entries() == (Map::<Network, usize>::empty()),
            table.wf(),
    {
        PrefixTable { trie: trie_new() }
    }

    /// Stores `value` under `net`, replacing what was stored under it.
    pub fn insert(&mut self, net: Network, value: usize)
        requires
            old(self).wf(),
            net.wf(),
        ensures
            final(self).entries() == old(self).entries().insert(net, value),
            final(self).wf(),
    {
        trie_insert(&mut self.trie, net, value);
    }

    /// The most specific block that holds `ip` and the number stored under
    /// it, or `None` where no block holds `ip`.
    pub fn longest_match(&self, ip: IpAddress) -> (r: Option<(Network, usize)>)
        ensures
            match r {
                Some((net, value)) => is_longest_cover(self.nets(), ip, net)
                    && self.entries()[net] == value,
                None => !covered(self.nets(), ip),
            },
    {
        trie_longest_match(&self.trie, ip)
    }

    /// How many distinct IPv4 addresses the blocks of the table hold.
    pub fn v4_count(&self) -> (count: u64)
        ensures
            count == v4_covered(self.nets()).len(),
            count <= 0x1_0000_0000,
    {
        proof {
            lemma_v4_covered_bounded(self.nets());
        }
        trie_v4_count(&self.trie)
    }
}

/// At most 2^32 IPv4 addresses are covered, whatever the blocks.
pub proof fn lemma_v4_covered_bounded(nets: Set<Network>)
    ensures
        v4_covered(nets).finite(),
        v4_covered(nets).len() <= 0x1_0000_0000,
{
    let all = set_int_range(0, 0x1_0000_0000);
    lemma_int_range(0, 0x1_0000_0000);
    assert(v4_covered(nets).subset_of(all));
    lemma_len_subset(v4_covered(nets), all);
}

/// Among well-formed blocks, the most specific block that holds an address
/// is unique.
pub proof fn lemma_longest_cover_unique(nets: Set<Network>, ip: IpAddress, a: Network, b: Network)
    requires
        is_longest_cover(nets, ip, a),
        is_longest_cover(nets, ip, b),
        a.wf(),
        b.wf(),
    ensures
        a == b,
{
    crate::addr::lemma_block_determined(a, b, ip);
}

} // verus!
