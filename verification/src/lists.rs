//! The two datasets of the passive classifier: the address ranges of CDN
//! providers, and the blocked networks and domains.

use crate::addr::{IpAddress, Network};
use crate::domain_set::{is_broadest_ancestor, DomainSet};
use crate::domain::is_under;
use crate::prefix_table::{covered, is_longest_cover, v4_covered, PrefixTable};
use crate::text::{clone_optional, optional_text, texts};
use vstd::prelude::*;
use vstd::string::*;

verus! {

/// Why a dataset could not be replaced.
#[derive(Clone, Copy, Debug, PartialEq, Eq, Structural)]
pub enum UpdateError {
    /// The network on the given line, counted from zero, is not in CIDR notation.
    InvalidNetwork { line: usize },
}

/// One range of a CDN provider.
#[derive(Debug)]
pub struct NetworkRecord {
    pub provider: String,
    pub cidr: Network,
    pub region: Option<String>,
}

/// A record as plain text and numbers.
pub struct RecordView {
    pub provider: Seq<char>,
    pub cidr: Network,
    pub region: Option<Seq<char>>,
}

/// One row of the CDN source, its network still as text.
#[derive(Debug)]
pub struct CdnRow {
    pub provider: String,
    pub cidr: String,
    pub region: Option<String>,
}

impl View for NetworkRecord {
    type V = RecordView;

    open spec fn view(&self) -> RecordView {
        RecordView { provider: self.provider@, cidr: self.cidr, region: optional_text(self.region) }
    }
}

impl Clone for NetworkRecord {
    fn clone(&self) -> (r: NetworkRecord)
        ensures
            r@ == self@,
    {
        NetworkRecord {
            provider: self.provider.clone(),
            cidr: self.cidr,
            region: clone_optional(&self.region),
        }
    }
}

impl NetworkRecord {
    /// Whether two records say the same.
    pub fn same_as(&self, other: &NetworkRecord) -> (r: bool)
        ensures
            r == (self@ == other@),
    {
        let regions = match (&self.region, &other.region) {
            (Some(a), Some(b)) => *a == *b,
            (None, None) => true,
            _ => false,
        };
        self.provider == other.provider && self.cidr == other.cidr && regions
    }

    /// The label under which the record's ranges are grouped: the provider,
    /// followed by the region in brackets where there is one.
    pub open spec fn label_spec(record: RecordView) -> Seq<char> {
        match record.region {
            Some(region) => record.provider + " ("@ + region + ")"@,
            None => record.provider,
        }
    }

    /// The label under which the record's ranges are grouped.
    pub fn label(&self) -> (r: String)
        ensures
            r@ == NetworkRecord::label_spec(self@),
    {
        let mut out = self.provider.clone();
        match &self.region {
            Some(region) => {
                out.append(" (");
                out.append(region.as_str());
                out.append(")");
            },
            None => {},
        }
        out
    }
}

/// The record a row stands for, where its network can be read.
pub open spec fn row_record(row: CdnRow) -> Option<RecordView> {
    match Network::parsed(row.cidr@) {
        Some(net) => Some(
            RecordView { provider: row.provider@, cidr: net, region: optional_text(row.region) },
        ),
        None => None,
    }
}

/// The records of rows by their networks, a later row taking the place of
/// an earlier one with the same network.
pub open spec fn listed(rows: Seq<CdnRow>) -> Map<Network, RecordView>
    decreases rows.len(),
{
    if rows.len() == 0 {
        Map::empty()
    } else {
        match row_record(rows.last()) {
            Some(record) => listed(rows.drop_last()).insert(record.cidr, record),
            None => listed(rows.drop_last()),
        }
    }
}

/// The networks listed from rows are the networks of the rows that can be
/// read, and the record under a network is the record of such a row.
pub proof fn lemma_listed_nets(rows: Seq<CdnRow>)
    ensures
        forall|net: Network| #[trigger]
            listed(rows).contains_key(net) <==> exists|i: int|
                0 <= i < rows.len() && Network::parsed((#[trigger] rows[i]).cidr@) == Some(net),
        forall|net: Network| #[trigger]
            listed(rows).contains_key(net) ==> listed(rows)[net].cidr == net && exists|i: int|
                0 <= i < rows.len() && row_record(#[trigger] rows[i]) == Some(listed(rows)[net]),
    decreases rows.len(),
{
    if rows.len() > 0 {
        let shorter = rows.drop_last();
        lemma_listed_nets(shorter);
        assert forall|net: Network| #[trigger] listed(rows).contains_key(net) implies exists|i: int|
            0 <= i < rows.len() && Network::parsed((#[trigger] rows[i]).cidr@) == Some(net) by {
            if row_record(rows.last()) matches Some(record) && record.cidr == net {
                assert(Network::parsed(rows[rows.len() - 1].cidr@) == Some(net));
            } else {
                assert(listed(shorter).contains_key(net));
                let i = choose|i: int|
                    0 <= i < shorter.len() && Network::parsed((#[trigger] shorter[i]).cidr@)
                        == Some(net);
                assert(rows[i] == shorter[i]);
            }
        }
        assert forall|net: Network|
            (exists|i: int|
                0 <= i < rows.len() && Network::parsed((#[trigger] rows[i]).cidr@) == Some(
                    net,
                )) implies #[trigger] listed(rows).contains_key(net) by {
            let i = choose|i: int|
                0 <= i < rows.len() && Network::parsed((#[trigger] rows[i]).cidr@) == Some(net);
            if i < rows.len() - 1 {
                assert(shorter[i] == rows[i]);
                assert(listed(shorter).contains_key(net));
            }
        }
        assert forall|net: Network| #[trigger] listed(rows).contains_key(net) implies listed(
            rows,
        )[net].cidr == net && exists|i: int|
            0 <= i < rows.len() && row_record(#[trigger] rows[i]) == Some(listed(rows)[net]) by {
            if row_record(rows.last()) matches Some(record) && record.cidr == net {
                assert(row_record(rows[rows.len() - 1]) == Some(listed(rows)[net]));
            } else {
                assert(listed(shorter).contains_key(net));
                let i = choose|i: int|
                    0 <= i < shorter.len() && row_record(#[trigger] shorter[i]) == Some(
                        listed(shorter)[net],
                    );
                assert(rows[i] == shorter[i]);
            }
        }
    }
}

/// The records that a table points at, by their networks.
pub open spec fn keyed(index: Map<Network, usize>, records: Seq<NetworkRecord>) -> Map<
    Network,
    RecordView,
> {
    Map::new(|net: Network| index.contains_key(net), |net: Network| records[index[net] as int]@)
}

/// The ranges of CDN providers.
pub struct CdnList {
    table: PrefixTable,
    records: Vec<NetworkRecord>,
}

impl CdnList {
    /// The records of the list by their networks.
    pub closed spec fn entries(&self) -> Map<Network, RecordView> {
        keyed(self.table.entries(), self.records@)
    }

    /// The networks of the list.
    pub open spec fn nets(&self) -> Set<Network> {
        self.entries().dom()
    }

    /// Every network is well formed and is the network of its own record.
    pub closed spec fn wf(&self) -> bool {
        &&& self.table.wf()
        &&& forall|net: Network| #[trigger]
            self.table.entries().contains_key(net) ==> self.table.entries()[net]
                < self.records.len() && self.records[self.table.entries()[net] as int].cidr == net
    }

    /// The networks of a well-formed list are well formed, and each record
    /// stands under its own network.
    pub proof fn lemma_entries_wf(&self)
        requires
            self.wf(),
        ensures
            forall|net: Network| self.nets().contains(net) ==> #[trigger] net.wf(),
            forall|net: Network| #[trigger]
                self.entries().contains_key(net) ==> self.entries()[net].cidr == net,
    {
        assert(self.nets() =~= self.table.nets());
    }

    /// A list without records.
    pub fn new() -> (r: CdnList)
        ensures
            r.wf(),
            r.entries() == (Map::<Network, RecordView>::empty()),
    {
        let r = CdnList { table: PrefixTable::new(), records: Vec::new() };
        assert(r.entries() =~= Map::empty());
        r
    }

    /// Replaces the list by the records of `rows`.
    ///
    /// The new list is built aside and takes the place of the old one only
    /// when every row has been read: a row whose network is not in CIDR
    /// notation leaves the list as it was.
    pub fn update(&mut self, rows: &Vec<CdnRow>) -> (r: Result<(), UpdateError>)
        ensures
            match r {
                Ok(()) => {
                    &&& forall|i: int| 0 <= i < rows.len() ==> row_record(#[trigger] rows[i]) is Some
                    &&& final(self).wf()
                    &&& final(self).entries() == listed(rows@)
                },
                Err(UpdateError::InvalidNetwork { line }) => {
                    &&& *final(self) == *old(self)
                    &&& line < rows.len()
                    &&& row_record(rows[line as int]) is None
                    &&& forall|i: int| 0 <= i < line ==> row_record(#[trigger] rows[i]) is Some
                },
            },
    {
        let mut table = PrefixTable::new();
        let mut records: Vec<NetworkRecord> = Vec::new();
        let mut i: usize = 0;
        assert(keyed(table.entries(), records@) =~= listed(rows@.take(0)));
        while i < rows.len()
            invariant
                i <= rows.len(),
                table.wf(),
                forall|net: Network| #[trigger]
                    table.entries().contains_key(net) ==> table.entries()[net] < records.len()
                        && records[table.entries()[net] as int].cidr == net,
                keyed(table.entries(), records@) == listed(rows@.take(i as int)),
                forall|j: int| 0 <= j < i ==> row_record(#[trigger] rows[j]) is Some,
            decreases rows.len() - i,
        {
            let row = &rows[i];
            let net = match Network::parse(row.cidr.as_str()) {
                Some(net) => net,
                None => {
                    return Err(UpdateError::InvalidNetwork { line: i });
                },
            };
            let ghost index = table.entries();
            let ghost held = records@;
            let record = NetworkRecord {
                provider: row.provider.clone(),
                cidr: net,
                region: clone_optional(&row.region),
            };
            let at = records.len();
            records.push(record);
            table.insert(net, at);
            i = i + 1;
            proof {
                let taken = rows@.take(i as int);
                assert(taken.drop_last() =~= rows@.take(i - 1));
                assert(taken.last() == rows[i - 1]);
                assert(row_record(rows[i - 1]) == Some(records[at as int]@));
                assert(keyed(table.entries(), records@) =~= keyed(index, held).insert(
                    net,
                    records[at as int]@,
                ));
            }
        }
        assert(rows@.take(rows.len() as int) =~= rows@);
        self.table = table;
        self.records = records;
        Ok(())
    }

    /// How many distinct IPv4 addresses the ranges of the list hold.
    pub fn v4_count(&self) -> (count: u64)
        ensures
            count == v4_covered(self.nets()).len(),
            count <= 0x1_0000_0000,
    {
        assert(self.nets() =~= self.table.nets());
        self.table.v4_count()
    }

    /// The record of the most specific range that holds `ip`, or `None`
    /// where no range of the list holds it.
    pub fn contains(&self, ip: &IpAddress) -> (r: Option<NetworkRecord>)
        requires
            self.wf(),
        ensures
            r is Some <==> covered(self.nets(), *ip),
            match r {
                Some(record) => is_longest_cover(self.nets(), *ip, record.cidr)
                    && self.entries()[record.cidr] == record@,
                None => !covered(self.nets(), *ip),
            },
    {
        assert(self.nets() =~= self.table.nets());
        match self.table.longest_match(*ip) {
            Some((net, at)) => Some(self.records[at].clone()),
            None => None,
        }
    }
}

/// The networks that lines in CIDR notation stand for.
pub open spec fn listed_nets(lines: Seq<Seq<char>>) -> Set<Network> {
    Set::new(
        |net: Network| exists|i: int| 0 <= i < lines.len() && Network::parsed(#[trigger] lines[i]) == Some(net),
    )
}

/// The blocked networks and domains.
pub struct RuBlacklist {
    table: PrefixTable,
    names: DomainSet,
    domain_count: usize,
}

impl RuBlacklist {
    /// The blocked networks.
    pub closed spec fn nets(&self) -> Set<Network> {
        self.table.nets()
    }

    /// The blocked domains.
    pub closed spec fn domains(&self) -> Set<Seq<char>> {
        self.names.domains()
    }

    /// How many domain lines the blacklist was made from.
    pub closed spec fn domain_total(&self) -> nat {
        self.domain_count as nat
    }

    /// Every network is well formed and every domain is stored under its own key.
    pub closed spec fn wf(&self) -> bool {
        self.table.wf() && self.names.wf()
    }

    /// How many domain lines the blacklist was made from, a line that
    /// occurs twice counted twice.
    pub fn domain_count(&self) -> (count: usize)
        ensures
            count == self.domain_total(),
    {
        self.domain_count
    }

    /// The networks of a well-formed blacklist are well formed.
    pub proof fn lemma_nets_wf(&self)
        requires
            self.wf(),
        ensures
            forall|net: Network| self.nets().contains(net) ==> #[trigger] net.wf(),
    {
    }

    /// A blacklist that blocks nothing.
    pub fn new() -> (r: RuBlacklist)
        ensures
            r.wf(),
            r.nets() == Set::<Network>::empty(),
            r.domains() == Set::<Seq<char>>::empty(),
            r.domain_total() == 0,
    {
        let lines: Vec<String> = Vec::new();
        let names = DomainSet::from_lines(&lines);
        let r = RuBlacklist { table: PrefixTable::new(), names, domain_count: 0 };
        assert(r.nets() =~= Set::<Network>::empty());
        assert(r.domains() =~= Set::<Seq<char>>::empty());
        r
    }

    /// Replaces the blacklist by the networks of `ip_lines`, one in CIDR
    /// notation per line, and the domains of `domain_lines`, one per line.
    ///
    /// Both parts are built aside and take the place of the old ones
    /// together: a line that is no network leaves the blacklist as it was.
    pub fn update(&mut self, ip_lines: &Vec<String>, domain_lines: &Vec<String>) -> (r: Result<
        (),
        UpdateError,
    >)
        ensures
            match r {
                Ok(()) => {
                    &&& forall|i: int|
                        0 <= i < ip_lines.len() ==> Network::parsed((#[trigger] ip_lines[i])@) is Some
                    &&& final(self).wf()
                    &&& final(self).nets() == listed_nets(texts(ip_lines@))
                    &&& final(self).domains() == texts(domain_lines@).to_set()
                    &&& final(self).domain_total() == domain_lines.len()
                },
                Err(UpdateError::InvalidNetwork { line }) => {
                    &&& *final(self) == *old(self)
                    &&& line < ip_lines.len()
                    &&& Network::parsed(ip_lines[line as int]@) is None
                    &&& forall|i: int|
                        0 <= i < line ==> Network::parsed((#[trigger] ip_lines[i])@) is Some
                },
            },
    {
        let mut table = PrefixTable::new();
        let mut i: usize = 0;
        assert(table.nets() =~= listed_nets(texts(ip_lines@).take(0)));
        while i < ip_lines.len()
            invariant
                i <= ip_lines.len(),
                table.wf(),
                table.nets() == listed_nets(texts(ip_lines@).take(i as int)),
                forall|j: int| 0 <= j < i ==> Network::parsed((#[trigger] ip_lines[j])@) is Some,
            decreases ip_lines.len() - i,
        {
            let net = match Network::parse(ip_lines[i].as_str()) {
                Some(net) => net,
                None => {
                    return Err(UpdateError::InvalidNetwork { line: i });
                },
            };
            let ghost before = table.nets();
            table.insert(net, i);
            i = i + 1;
            proof {
                let lines = texts(ip_lines@);
                let shorter = lines.take(i - 1);
                let taken = lines.take(i as int);
                assert(taken[i - 1] == ip_lines[i - 1]@);
                assert forall|n: Network| listed_nets(taken).contains(n) <==> before.insert(
                    net,
                ).contains(n) by {
                    if listed_nets(taken).contains(n) {
                        let j = choose|j: int|
                            0 <= j < taken.len() && Network::parsed(#[trigger] taken[j]) == Some(n);
                        if j < i - 1 {
                            assert(shorter[j] == taken[j]);
                        }
                    }
                    if before.contains(n) {
                        let j = choose|j: int|
                            0 <= j < shorter.len() && Network::parsed(#[trigger] shorter[j]) == Some(
                                n,
                            );
                        assert(taken[j] == shorter[j]);
                    }
                }
                assert(table.nets() =~= listed_nets(taken));
            }
        }
        assert(texts(ip_lines@).take(ip_lines.len() as int) =~= texts(ip_lines@));
        let names = DomainSet::from_lines(domain_lines);
        self.table = table;
        self.names = names;
        self.domain_count = domain_lines.len();
        Ok(())
    }

    /// How many distinct IPv4 addresses the blocked networks hold.
    pub fn v4_count(&self) -> (count: u64)
        ensures
            count == v4_covered(self.nets()).len(),
            count <= 0x1_0000_0000,
    {
        self.table.v4_count()
    }

    /// The most specific blocked network that holds `ip`, or `None` where
    /// none holds it.
    pub fn contains_ip(&self, ip: &IpAddress) -> (r: Option<Network>)
        ensures
            r is Some <==> covered(self.nets(), *ip),
            match r {
                Some(net) => is_longest_cover(self.nets(), *ip, net),
                None => !covered(self.nets(), *ip),
            },
    {
        match self.table.longest_match(*ip) {
            Some((net, _)) => Some(net),
            None => None,
        }
    }

    /// The blocked domain that `domain` falls under: the entry that is
    /// `domain` itself or an ancestor of it, and `None` where there is no
    /// such entry. Of several such entries the broadest is returned, the one
    /// with the fewest labels.
    pub fn contains_domain(&self, domain: &str) -> (r: Option<String>)
        requires
            self.wf(),
        ensures
            r is Some <==> exists|entry: Seq<char>|
                self.domains().contains(entry) && is_under(domain@, entry),
            match r {
                Some(entry) => is_broadest_ancestor(self.domains(), domain@, entry@),
                None => forall|entry: Seq<char>|
                    self.domains().contains(entry) ==> !is_under(domain@, entry),
            },
    {
        self.names.find_ancestor(domain)
    }
}

} // verus!
