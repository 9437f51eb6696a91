//! The passive check: what the datasets say about a resolved target.

use crate::addr::{IpAddress, Network};
use crate::domain::is_under;
use crate::domain_set::is_broadest_ancestor;
use crate::geoip::{first_failure, nothing_known, GeoError, GeoIp, IpInfo, IpInfoView};
use crate::lists::{CdnList, CdnRow, NetworkRecord, RecordView, RuBlacklist, UpdateError};
use crate::prefix_table::{covered, is_longest_cover};
use crate::resolver::ResolveError;
use crate::target::{Target, TargetView};
use crate::text::{optional_text, optional_view};
use vstd::prelude::*;
use vstd::string::*;

verus! {

/// The ranges of one provider label that hold addresses of a target.
#[derive(Debug)]
pub struct ProviderMatches {
    pub label: String,
    pub records: Vec<NetworkRecord>,
}

/// What the datasets say about a target.
#[derive(Debug)]
pub enum CheckVerdict {
    /// Nothing matched.
    Clear,
    /// Something matched: a blocked domain, blocked networks, ranges of
    /// CDN providers, or several of these.
    Blocked {
        rkn_domain: Option<String>,
        rkn_subnets: Vec<Network>,
        cdn_provider_subnets: Vec<ProviderMatches>,
    },
}

/// A verdict with its evidence as sets.
pub enum VerdictView {
    Clear,
    Blocked {
        rkn_domain: Option<Seq<char>>,
        rkn_subnets: Set<Network>,
        cdn_provider_subnets: Map<Seq<char>, Set<RecordView>>,
    },
}

/// The result of a check.
#[derive(Debug)]
pub struct Check {
    pub verdict: CheckVerdict,
    /// What is known about the first address of the target.
    pub geo: IpInfo,
    /// All addresses of the target, in the order they were resolved in.
    pub ips: Vec<IpAddress>,
}

/// Why a check gave no result.
#[derive(Debug)]
pub enum CheckError {
    /// The name could not be looked up.
    ResolveError(ResolveError),
    /// A geolocation database could not be read.
    GeoIpError,
    /// The name has no address records.
    NotFound,
}

impl CheckError {
    /// What the failure is called.
    pub open spec fn text(self) -> Seq<char> {
        match self {
            CheckError::ResolveError(_) => "resolve error"@,
            CheckError::GeoIpError => "geoip error"@,
            CheckError::NotFound => "domain not found"@,
        }
    }

    /// What the failure is called.
    pub fn to_string(&self) -> (r: String)
        ensures
            r@ == self.text(),
    {
        match self {
            CheckError::ResolveError(_) => String::from_str("resolve error"),
            CheckError::GeoIpError => String::from_str("geoip error"),
            CheckError::NotFound => String::from_str("domain not found"),
        }
    }
}

/// The pairs of label and record that groups hold.
pub open spec fn held(groups: Seq<ProviderMatches>) -> Set<(Seq<char>, RecordView)> {
    Set::new(
        |pair: (Seq<char>, RecordView)|
            exists|i: int, j: int|
                0 <= i < groups.len() && 0 <= j < groups[i].records.len() && groups[i].label@
                    == pair.0 && (#[trigger] groups[i].records[j])@ == pair.1,
    )
}

/// The map from each label of `pairs` to the records that stand with it.
pub open spec fn by_label(pairs: Set<(Seq<char>, RecordView)>) -> Map<Seq<char>, Set<RecordView>> {
    Map::new(
        |label: Seq<char>| exists|record: RecordView| pairs.contains((label, record)),
        |label: Seq<char>| Set::new(|record: RecordView| pairs.contains((label, record))),
    )
}

/// Groups hold each label once and each record of a label once, under the
/// label that the record gives itself, and no group is empty.
pub open spec fn groups_wf(groups: Seq<ProviderMatches>) -> bool {
    &&& forall|i: int| 0 <= i < groups.len() ==> (#[trigger] groups[i]).records.len() > 0
    &&& forall|i: int, j: int|
        0 <= i < j < groups.len() ==> (#[trigger] groups[i]).label@ != (#[trigger] groups[j]).label@
    &&& forall|i: int, j: int, k: int|
        0 <= i < groups.len() && 0 <= j < k < groups[i].records.len() ==> (
        #[trigger] groups[i].records[j])@ != (#[trigger] groups[i].records[k])@
    &&& forall|i: int, j: int|
        0 <= i < groups.len() && 0 <= j < groups[i].records.len() ==> NetworkRecord::label_spec(
            (#[trigger] groups[i].records[j])@,
        ) == groups[i].label@
}

/// No network stands twice.
pub open spec fn distinct(nets: Seq<Network>) -> bool {
    forall|i: int, j: int| 0 <= i < j < nets.len() ==> nets[i] != nets[j]
}

impl CheckVerdict {
    /// The evidence is held as sets: nothing stands twice.
    pub open spec fn wf(&self) -> bool {
        match self {
            CheckVerdict::Clear => true,
            CheckVerdict::Blocked { rkn_subnets, cdn_provider_subnets, .. } => distinct(
                rkn_subnets@,
            ) && groups_wf(cdn_provider_subnets@),
        }
    }
}

impl View for CheckVerdict {
    type V = VerdictView;

    open spec fn view(&self) -> VerdictView {
        match self {
            CheckVerdict::Clear => VerdictView::Clear,
            CheckVerdict::Blocked { rkn_domain, rkn_subnets, cdn_provider_subnets } => {
                VerdictView::Blocked {
                    rkn_domain: optional_text(*rkn_domain),
                    rkn_subnets: rkn_subnets@.to_set(),
                    cdn_provider_subnets: by_label(held(cdn_provider_subnets@)),
                }
            },
        }
    }
}

/// The verdict on three kinds of evidence: clear where all three are empty,
/// else blocked with all three as they are.
pub open spec fn verdict_on(
    domain: Option<Seq<char>>,
    subnets: Set<Network>,
    providers: Map<Seq<char>, Set<RecordView>>,
) -> VerdictView {
    if domain is None && subnets == Set::<Network>::empty() && providers == Map::<
        Seq<char>,
        Set<RecordView>,
    >::empty() {
        VerdictView::Clear
    } else {
        VerdictView::Blocked { rkn_domain: domain, rkn_subnets: subnets, cdn_provider_subnets: providers }
    }
}

/// A verdict is clear exactly when there is no evidence of any kind, and a
/// blocked verdict carries each kind of evidence as it is, empty or not.
pub proof fn lemma_clear_iff_no_evidence(
    domain: Option<Seq<char>>,
    subnets: Set<Network>,
    providers: Map<Seq<char>, Set<RecordView>>,
)
    ensures
        verdict_on(domain, subnets, providers) is Clear <==> domain is None && subnets
            == Set::<Network>::empty() && providers == Map::<Seq<char>, Set<RecordView>>::empty(),
        !(verdict_on(domain, subnets, providers) is Clear) ==> verdict_on(domain, subnets, providers)
            == (VerdictView::Blocked {
            rkn_domain: domain,
            rkn_subnets: subnets,
            cdn_provider_subnets: providers,
        }),
{
}

/// The blocked networks that are the most specific one for some address of `ips`.
pub open spec fn subnet_hits(nets: Set<Network>, ips: Seq<IpAddress>) -> Set<Network> {
    Set::new(
        |net: Network| exists|i: int| 0 <= i < ips.len() && #[trigger] is_longest_cover(nets, ips[i], net),
    )
}

/// The CDN records whose range is the most specific one for some address
/// of `ips`, each with its label.
pub open spec fn cdn_hits(entries: Map<Network, RecordView>, ips: Seq<IpAddress>) -> Set<
    (Seq<char>, RecordView),
> {
    Set::new(
        |pair: (Seq<char>, RecordView)|
            pair.0 == NetworkRecord::label_spec(pair.1) && entries.contains_key(pair.1.cidr)
                && entries[pair.1.cidr] == pair.1 && exists|i: int|
                0 <= i < ips.len() && #[trigger] is_longest_cover(entries.dom(), ips[i], pair.1.cidr),
    )
}

/// Whether `hit` is what the blocked domains say about a target: for a
/// domain, the broadest blocked entry it falls under, and nothing where it
/// falls under none; nothing for an address.
pub open spec fn domain_hit(domains: Set<Seq<char>>, target: TargetView, hit: Option<Seq<char>>) -> bool {
    match target {
        TargetView::Domain(name) => match hit {
            Some(entry) => is_broadest_ancestor(domains, name, entry),
            None => forall|entry: Seq<char>| domains.contains(entry) ==> !is_under(name, entry),
        },
        _ => hit is None,
    }
}

/// Adds `net` to `nets` unless it is there.
fn note_network(nets: &mut Vec<Network>, net: Network)
    requires
        distinct(old(nets)@),
    ensures
        distinct(final(nets)@),
        final(nets)@.to_set() == old(nets)@.to_set().insert(net),
{
    let mut i: usize = 0;
    while i < nets.len()
        invariant
            i <= nets.len(),
            nets@ == old(nets)@,
            distinct(nets@),
            forall|j: int| 0 <= j < i ==> nets[j] != net,
        decreases nets.len() - i,
    {
        if nets[i] == net {
            assert(nets@.to_set() =~= old(nets)@.to_set().insert(net));
            return ;
        }
        i = i + 1;
    }
    nets.push(net);
    assert(nets@.to_set() =~= old(nets)@.to_set().insert(net)) by {
        assert forall|n: Network| nets@.to_set().contains(n) <==> old(nets)@.to_set().insert(
            net,
        ).contains(n) by {
            if nets@.contains(n) {
                let j = choose|j: int| 0 <= j < nets@.len() && nets@[j] == n;
                if j < old(nets)@.len() {
                    assert(old(nets)@[j] == n);
                }
            }
            if old(nets)@.contains(n) {
                let j = choose|j: int| 0 <= j < old(nets)@.len() && old(nets)@[j] == n;
                assert(nets@[j] == n);
            }
            if n == net {
                assert(nets@[nets@.len() - 1] == n);
            }
        }
    }
}

/// Adds `record` under its label to `groups` unless it is there.
fn note_record(groups: &mut Vec<ProviderMatches>, record: NetworkRecord)
    requires
        groups_wf(old(groups)@),
    ensures
        groups_wf(final(groups)@),
        held(final(groups)@) == held(old(groups)@).insert(
            (NetworkRecord::label_spec(record@), record@),
        ),
{
    let label = record.label();
    let ghost pair = (label@, record@);
    let ghost before = groups@;
    let mut i: usize = 0;
    while i < groups.len()
        invariant
            i <= groups.len(),
            groups@ == before,
            before == old(groups)@,
            groups_wf(before),
            pair == (label@, record@),
            label@ == NetworkRecord::label_spec(record@),
            forall|k: int| 0 <= k < i ==> (#[trigger] groups[k]).label@ != label@,
        decreases groups.len() - i,
    {
        if groups[i].label == label {
            let mut j: usize = 0;
            while j < groups[i].records.len()
                invariant
                    i < groups.len(),
                    j <= groups[i as int].records.len(),
                    groups@ == before,
                    before == old(groups)@,
                    groups_wf(before),
                    pair == (label@, record@),
                    label@ == NetworkRecord::label_spec(record@),
                    groups[i as int].label@ == label@,
                    forall|k: int|
                        0 <= k < j ==> (#[trigger] groups[i as int].records[k])@ != record@,
                decreases groups[i as int].records.len() - j,
            {
                if groups[i].records[j].same_as(&record) {
                    assert(held(before).contains(pair));
                    assert(held(before) =~= held(before).insert(pair));
                    return ;
                }
                j = j + 1;
            }
            let mut group = groups.remove(i);
            group.records.push(record);
            groups.insert(i, group);
            proof {
                let after = groups@;
                assert(after.len() == before.len());
                assert forall|k: int| 0 <= k < after.len() && k != i implies after[k] == before[k] by {}
                assert(after[i as int].label@ == before[i as int].label@);
                assert(after[i as int].records@ == before[i as int].records@.push(record));
                assert forall|p: (Seq<char>, RecordView)| held(after).contains(p) <==> held(
                    before,
                ).insert(pair).contains(p) by {
                    if held(after).contains(p) {
                        let (a, b) = choose|a: int, b: int|
                            0 <= a < after.len() && 0 <= b < after[a].records.len()
                                && after[a].label@ == p.0 && (#[trigger] after[a].records[b])@
                                == p.1;
                        if a == i && b == before[a].records.len() {
                            assert(p == pair);
                        } else {
                            assert(before[a].records[b]@ == p.1);
                            assert(held(before).contains(p));
                        }
                    }
                    if held(before).contains(p) {
                        let (a, b) = choose|a: int, b: int|
                            0 <= a < before.len() && 0 <= b < before[a].records.len()
                                && before[a].label@ == p.0 && (#[trigger] before[a].records[b])@
                                == p.1;
                        assert(after[a].records[b]@ == p.1);
                    }
                    if p == pair {
                        assert(after[i as int].records[before[i as int].records.len() as int]@
                            == p.1);
                    }
                }
                assert(held(after) =~= held(before).insert(pair));
                assert(groups_wf(after)) by {
                    assert forall|a: int, b: int, c: int|
                        0 <= a < after.len() && 0 <= b < c < after[a].records.len() implies (
                    #[trigger] after[a].records[b])@ != (#[trigger] after[a].records[c])@ by {
                        if a == i {
                            if c < before[a].records.len() {
                                assert(before[a].records[b]@ != before[a].records[c]@);
                            } else {
                                assert(before[a].records[b]@ != record@);
                            }
                        } else {
                            assert(before[a].records[b]@ != before[a].records[c]@);
                        }
                    }
                    assert forall|a: int, b: int|
                        0 <= a < after.len() && 0 <= b < after[a].records.len()
                            implies NetworkRecord::label_spec((#[trigger] after[a].records[b])@)
                        == after[a].label@ by {
                        if a == i && b == before[a].records.len() {
                        } else {
                            assert(NetworkRecord::label_spec(before[a].records[b]@)
                                == before[a].label@);
                        }
                    }
                    assert forall|a: int, b: int| 0 <= a < b < after.len() implies (
                    #[trigger] after[a]).label@ != (#[trigger] after[b]).label@ by {
                        assert(before[a].label@ != before[b].label@);
                    }
                    assert forall|a: int| 0 <= a < after.len() implies (
                    #[trigger] after[a]).records.len() > 0 by {
                        if a != i {
                            assert(before[a].records.len() > 0);
                        }
                    }
                }
            }
            return ;
        }
        i = i + 1;
    }
    let mut records: Vec<NetworkRecord> = Vec::new();
    records.push(record);
    groups.push(ProviderMatches { label, records });
    proof {
        let after = groups@;
        let last = before.len() as int;
        assert(after[last].records[0]@ == record@);
        assert forall|p: (Seq<char>, RecordView)| held(after).contains(p) <==> held(before).insert(
            pair,
        ).contains(p) by {
            if held(after).contains(p) {
                let (a, b) = choose|a: int, b: int|
                    0 <= a < after.len() && 0 <= b < after[a].records.len() && after[a].label@
                        == p.0 && (#[trigger] after[a].records[b])@ == p.1;
                if a < last {
                    assert(before[a].records[b]@ == p.1);
                    assert(held(before).contains(p));
                }
            }
            if held(before).contains(p) {
                let (a, b) = choose|a: int, b: int|
                    0 <= a < before.len() && 0 <= b < before[a].records.len() && before[a].label@
                        == p.0 && (#[trigger] before[a].records[b])@ == p.1;
                assert(after[a].records[b]@ == p.1);
            }
            if p == pair {
                assert(after[last].records[0]@ == p.1);
            }
        }
        assert(held(after) =~= held(before).insert(pair));
        assert(groups_wf(after)) by {
            assert forall|a: int, b: int, c: int|
                0 <= a < after.len() && 0 <= b < c < after[a].records.len() implies (
            #[trigger] after[a].records[b])@ != (#[trigger] after[a].records[c])@ by {
                assert(before[a].records[b]@ != before[a].records[c]@);
            }
            assert forall|a: int, b: int|
                0 <= a < after.len() && 0 <= b < after[a].records.len()
                    implies NetworkRecord::label_spec((#[trigger] after[a].records[b])@)
                == after[a].label@ by {
                if a < last {
                    assert(NetworkRecord::label_spec(before[a].records[b]@) == before[a].label@);
                }
            }
            assert forall|a: int, b: int| 0 <= a < b < after.len() implies (#[trigger] after[a]).label@
                != (#[trigger] after[b]).label@ by {
                if b < last {
                    assert(before[a].label@ != before[b].label@);
                } else {
                    assert(before[a].label@ != label@);
                }
            }
            assert forall|a: int| 0 <= a < after.len() implies (#[trigger] after[a]).records.len()
                > 0 by {
                if a < last {
                    assert(before[a].records.len() > 0);
                }
            }
        }
    }
}

/// The blocked domain that a verdict names.
pub open spec fn named_domain(verdict: VerdictView) -> Option<Seq<char>> {
    match verdict {
        VerdictView::Clear => None,
        VerdictView::Blocked { rkn_domain, .. } => rkn_domain,
    }
}

/// What one dataset did with what was fetched for it.
#[derive(Debug)]
pub enum Refresh<E> {
    /// The dataset was replaced.
    Installed,
    /// Nothing was fetched: the dataset is as it was.
    NotDownloaded,
    /// What was fetched could not be used: the dataset is as it was.
    Rejected(E),
}

/// What a refresh did with each dataset.
#[derive(Debug)]
pub struct UpdateReport {
    pub geo: Refresh<GeoError>,
    pub rkn: Refresh<UpdateError>,
    pub cdn: Refresh<UpdateError>,
}

/// Whether `after` and `done` are what refreshing the geolocation databases
/// `before` with `fetched` gives: the three that were opened, where
/// something was fetched and all three could be opened, and else the
/// databases as they were, with the failure of the first that could not.
pub open spec fn geo_refreshed<D>(
    before: GeoIp<D>,
    after: GeoIp<D>,
    fetched: Option<(Result<D, GeoError>, Result<D, GeoError>, Result<D, GeoError>)>,
    done: Refresh<GeoError>,
) -> bool {
    match fetched {
        None => done is NotDownloaded && after == before,
        Some((Ok(asn), Ok(country), Ok(city))) => {
            &&& done is Installed
            &&& after.asn_db() == Some(asn)
            &&& after.country_db() == Some(country)
            &&& after.city_db() == Some(city)
        },
        Some((asn, country, city)) => {
            &&& after == before
            &&& done matches Refresh::Rejected(e)
            &&& Some(e) == first_failure(asn, country, city)
        },
    }
}

/// Whether `after` and `done` are what refreshing the blacklist `before`
/// with `fetched` gives: the networks and domains fetched, where something
/// was fetched and every line of networks is one, and else the blacklist as
/// it was, with the first line that is no network named.
pub open spec fn rkn_refreshed(
    before: RuBlacklist,
    after: RuBlacklist,
    fetched: Option<(Vec<String>, Vec<String>)>,
    done: Refresh<UpdateError>,
) -> bool {
    match fetched {
        None => done is NotDownloaded && after == before,
        Some((ip_lines, domain_lines)) => if forall|i: int|
            0 <= i < ip_lines.len() ==> Network::parsed((#[trigger] ip_lines[i])@) is Some {
            &&& done is Installed
            &&& after.wf()
            &&& after.nets() == crate::lists::listed_nets(crate::text::texts(ip_lines@))
            &&& after.domains() == crate::text::texts(domain_lines@).to_set()
            &&& after.domain_total() == domain_lines.len()
        } else {
            &&& after == before
            &&& done matches Refresh::Rejected(UpdateError::InvalidNetwork { line })
            &&& line < ip_lines.len()
            &&& Network::parsed(ip_lines[line as int]@) is None
            &&& forall|i: int| 0 <= i < line ==> Network::parsed((#[trigger] ip_lines[i])@) is Some
        },
    }
}

/// Whether `after` and `done` are what refreshing the CDN ranges `before`
/// with `fetched` gives: the records of the rows fetched, where something
/// was fetched and every row names a network, and else the ranges as they
/// were, with the first row that names no network named.
pub open spec fn cdn_refreshed(
    before: CdnList,
    after: CdnList,
    fetched: Option<Vec<CdnRow>>,
    done: Refresh<UpdateError>,
) -> bool {
    match fetched {
        None => done is NotDownloaded && after == before,
        Some(rows) => if forall|i: int|
            0 <= i < rows.len() ==> crate::lists::row_record(#[trigger] rows[i]) is Some {
            &&& done is Installed
            &&& after.wf()
            &&& after.entries() == crate::lists::listed(rows@)
        } else {
            &&& after == before
            &&& done matches Refresh::Rejected(UpdateError::InvalidNetwork { line })
            &&& line < rows.len()
            &&& crate::lists::row_record(rows[line as int]) is None
            &&& forall|i: int| 0 <= i < line ==> crate::lists::row_record(#[trigger] rows[i]) is Some
        },
    }
}

/// The three datasets and the time they were last refreshed.
pub struct Checker<D> {
    cdn_list: CdnList,
    ru_blacklist: RuBlacklist,
    geo_ip: GeoIp<D>,
    last_update: Option<i64>,
}

/// The address whose place is shown for a target: the first of its
/// addresses, where the lookup gave any.
pub open spec fn shown_address(resolved: Result<Vec<IpAddress>, ResolveError>) -> Option<IpAddress> {
    match resolved {
        Ok(ips) => if ips.len() > 0 {
            Some(ips[0])
        } else {
            None
        },
        Err(_) => None,
    }
}

/// The address whose place is to be looked up for a target with the
/// addresses `resolved`: the first one. There is none where the lookup of
/// the name failed or gave no address.
pub fn first_address(resolved: &Result<Vec<IpAddress>, ResolveError>) -> (r: Option<IpAddress>)
    ensures
        r == shown_address(*resolved),
{
    match resolved {
        Ok(ips) => if ips.len() > 0 {
            Some(ips[0])
        } else {
            None
        },
        Err(_) => None,
    }
}

/// What is shown for the place of a target, given what the lookup of its
/// first address gave: the facts found, nothing known where no lookup was
/// made, and `Err` where the lookup failed.
pub open spec fn place_shown(geo: Option<Result<IpInfo, GeoError>>) -> Result<IpInfoView, ()> {
    match geo {
        Some(Ok(info)) => Ok(info@),
        Some(Err(_)) => Err(()),
        None => Ok(nothing_known()),
    }
}

impl CheckVerdict {
    /// The verdict on three kinds of evidence: clear where all three are
    /// empty, else blocked, carrying all three as they are.
    pub fn from_evidence(
        domain: Option<String>,
        subnets: Vec<Network>,
        providers: Vec<ProviderMatches>,
    ) -> (r: CheckVerdict)
        requires
            distinct(subnets@),
            groups_wf(providers@),
        ensures
            r.wf(),
            r@ == verdict_on(optional_text(domain), subnets@.to_set(), by_label(held(providers@))),
            r is Clear <==> domain is None && subnets.len() == 0 && providers.len() == 0,
    {
        proof {
            if subnets.len() > 0 {
                assert(subnets@.to_set().contains(subnets@[0]));
            } else {
                assert(subnets@.to_set() =~= Set::<Network>::empty());
            }
            if providers.len() > 0 {
                let first = providers@[0];
                assert(held(providers@).contains((first.label@, first.records[0]@)));
                assert(by_label(held(providers@)).contains_key(first.label@));
            } else {
                assert(by_label(held(providers@)) =~= Map::<Seq<char>, Set<RecordView>>::empty());
            }
        }
        if domain.is_none() && subnets.len() == 0 && providers.len() == 0 {
            CheckVerdict::Clear
        } else {
            CheckVerdict::Blocked {
                rkn_domain: domain,
                rkn_subnets: subnets,
                cdn_provider_subnets: providers,
            }
        }
    }
}

impl<D> Checker<D> {
    /// The ranges of CDN providers.
    pub closed spec fn cdn_list(&self) -> CdnList {
        self.cdn_list
    }

    /// The blocked networks and domains.
    pub closed spec fn ru_blacklist(&self) -> RuBlacklist {
        self.ru_blacklist
    }

    /// The geolocation databases.
    pub closed spec fn geo(&self) -> GeoIp<D> {
        self.geo_ip
    }

    /// When the datasets were last refreshed, in seconds since the epoch.
    pub closed spec fn refreshed_at(&self) -> Option<i64> {
        self.last_update
    }

    /// Both lists are well formed.
    pub open spec fn wf(&self) -> bool {
        self.cdn_list().wf() && self.ru_blacklist().wf()
    }

    /// Whether `verdict` is the verdict on a target with the addresses
    /// `ips`: it names the blocked domain that the target falls under, the
    /// blocked networks and the CDN ranges that are the most specific for
    /// one of the addresses, and it is clear where there is none of these.
    pub open spec fn judged(&self, target: TargetView, ips: Seq<IpAddress>, verdict: VerdictView) -> bool {
        &&& domain_hit(self.ru_blacklist().domains(), target, named_domain(verdict))
        &&& verdict == verdict_on(
            named_domain(verdict),
            subnet_hits(self.ru_blacklist().nets(), ips),
            by_label(cdn_hits(self.cdn_list().entries(), ips)),
        )
    }

    /// A checker with empty datasets that was never refreshed.
    pub fn new() -> (r: Checker<D>)
        ensures
            r.wf(),
            r.refreshed_at() is None,
            r.cdn_list().entries() == (Map::<Network, RecordView>::empty()),
            r.cdn_list().nets() == Set::<Network>::empty(),
            r.ru_blacklist().nets() == Set::<Network>::empty(),
            r.ru_blacklist().domains() == Set::<Seq<char>>::empty(),
            r.ru_blacklist().domain_total() == 0,
            r.geo().asn_db() is None && r.geo().city_db() is None && r.geo().country_db() is None,
    {
        let cdn_list = CdnList::new();
        assert(cdn_list.nets() =~= Set::<Network>::empty());
        Checker {
            cdn_list,
            ru_blacklist: RuBlacklist::new(),
            geo_ip: GeoIp::new(),
            last_update: None,
        }
    }

    /// The geolocation databases that are installed, for the one who
    /// reads them.
    pub fn geo_ip(&self) -> (r: &GeoIp<D>)
        ensures
            *r == self.geo(),
    {
        &self.geo_ip
    }

    /// The blocked networks that hold addresses of `ips`.
    fn matched_subnets(&self, ips: &Vec<IpAddress>) -> (r: Vec<Network>)
        requires
            self.wf(),
        ensures
            distinct(r@),
            r@.to_set() == subnet_hits(self.ru_blacklist().nets(), ips@),
    {
        let ghost nets = self.ru_blacklist.nets();
        let mut out: Vec<Network> = Vec::new();
        let mut i: usize = 0;
        assert(out@.to_set() =~= subnet_hits(nets, ips@.take(0)));
        while i < ips.len()
            invariant
                i <= ips.len(),
                self.wf(),
                nets == self.ru_blacklist().nets(),
                distinct(out@),
                out@.to_set() == subnet_hits(nets, ips@.take(i as int)),
            decreases ips.len() - i,
        {
            let ghost before = out@.to_set();
            let found = self.ru_blacklist.contains_ip(&ips[i]);
            match found {
                Some(net) => {
                    note_network(&mut out, net);
                },
                None => {},
            }
            i = i + 1;
            proof {
                self.ru_blacklist.lemma_nets_wf();
                let shorter = ips@.take(i - 1);
                let taken = ips@.take(i as int);
                assert(taken[i - 1] == ips[i - 1]);
                assert forall|n: Network| subnet_hits(nets, taken).contains(n) <==> out@.to_set().contains(
                    n,
                ) by {
                    if subnet_hits(nets, taken).contains(n) {
                        let k = choose|k: int|
                            0 <= k < taken.len() && #[trigger] is_longest_cover(nets, taken[k], n);
                        if k < i - 1 {
                            assert(is_longest_cover(nets, shorter[k], n));
                            assert(before.contains(n));
                        } else {
                            assert(covered(nets, ips[i - 1])) by {
                                assert(n.covers(ips[i - 1]));
                            }
                            let net = found->0;
                            crate::prefix_table::lemma_longest_cover_unique(nets, ips[i - 1], n, net);
                        }
                    }
                    if before.contains(n) {
                        let k = choose|k: int|
                            0 <= k < shorter.len() && #[trigger] is_longest_cover(nets, shorter[k], n);
                        assert(is_longest_cover(nets, taken[k], n));
                    }
                    if found matches Some(net) && n == net {
                        assert(is_longest_cover(nets, taken[i - 1], n));
                    }
                }
                assert(out@.to_set() =~= subnet_hits(nets, taken));
            }
        }
        assert(ips@.take(ips.len() as int) =~= ips@);
        out
    }

    /// The ranges of CDN providers that hold addresses of `ips`, by label.
    fn matched_providers(&self, ips: &Vec<IpAddress>) -> (r: Vec<ProviderMatches>)
        requires
            self.wf(),
        ensures
            groups_wf(r@),
            held(r@) == cdn_hits(self.cdn_list().entries(), ips@),
    {
        let ghost entries = self.cdn_list.entries();
        let ghost nets = self.cdn_list.nets();
        let mut out: Vec<ProviderMatches> = Vec::new();
        let mut i: usize = 0;
        assert(held(out@) =~= cdn_hits(entries, ips@.take(0)));
        while i < ips.len()
            invariant
                i <= ips.len(),
                self.wf(),
                entries == self.cdn_list().entries(),
                nets == entries.dom(),
                groups_wf(out@),
                held(out@) == cdn_hits(entries, ips@.take(i as int)),
            decreases ips.len() - i,
        {
            let ghost before = held(out@);
            let found = self.cdn_list.contains(&ips[i]);
            let ghost hit = optional_view(found);
            match found {
                Some(record) => {
                    note_record(&mut out, record);
                },
                None => {},
            }
            i = i + 1;
            proof {
                self.cdn_list.lemma_entries_wf();
                let shorter = ips@.take(i - 1);
                let taken = ips@.take(i as int);
                assert(taken[i - 1] == ips[i - 1]);
                assert forall|p: (Seq<char>, RecordView)| cdn_hits(entries, taken).contains(p)
                    <==> held(out@).contains(p) by {
                    if cdn_hits(entries, taken).contains(p) {
                        let k = choose|k: int|
                            0 <= k < taken.len() && #[trigger] is_longest_cover(
                                nets,
                                taken[k],
                                p.1.cidr,
                            );
                        if k < i - 1 {
                            assert(is_longest_cover(nets, shorter[k], p.1.cidr));
                            assert(before.contains(p));
                        } else {
                            assert(covered(nets, ips[i - 1])) by {
                                assert(p.1.cidr.covers(ips[i - 1]));
                            }
                            let record = hit->0;
                            crate::prefix_table::lemma_longest_cover_unique(
                                nets,
                                ips[i - 1],
                                p.1.cidr,
                                record.cidr,
                            );
                            assert(p.1 == record);
                        }
                    }
                    if before.contains(p) {
                        let k = choose|k: int|
                            0 <= k < shorter.len() && #[trigger] is_longest_cover(
                                nets,
                                shorter[k],
                                p.1.cidr,
                            );
                        assert(is_longest_cover(nets, taken[k], p.1.cidr));
                    }
                    if hit matches Some(record) && p == (NetworkRecord::label_spec(record), record) {
                        assert(is_longest_cover(nets, taken[i - 1], p.1.cidr));
                    }
                }
                assert(held(out@) =~= cdn_hits(entries, taken));
            }
        }
        assert(ips@.take(ips.len() as int) =~= ips@);
        out
    }

    /// Judges a target from its resolved addresses and from what the
    /// lookup of the place of its first address gave.
    ///
    /// A name without address records is not found, and so is a name whose
    /// lookup succeeded without giving an address; any other failure of the
    /// lookup is handed on. A failed lookup of the place fails the check.
    /// Every address is looked up among the CDN ranges and the blocked
    /// networks, a domain also among the blocked domains; the verdict is
    /// clear where nothing matched.
    pub fn check(
        &self,
        target: &Target,
        resolved: Result<Vec<IpAddress>, ResolveError>,
        geo: Option<Result<IpInfo, GeoError>>,
    ) -> (r: Result<Check, CheckError>)
        requires
            self.wf(),
        ensures
            match resolved {
                Err(ResolveError::NxDomain) => r matches Err(CheckError::NotFound),
                Err(ResolveError::Other(text)) => r matches Err(
                    CheckError::ResolveError(ResolveError::Other(told)),
                ) && told@ == text@,
                Ok(ips) => if ips.len() == 0 {
                    r matches Err(CheckError::NotFound)
                } else {
                    match place_shown(geo) {
                        Err(_) => r matches Err(CheckError::GeoIpError),
                        Ok(place) => r matches Ok(check) && check.ips@ == ips@ && check.geo@
                            == place && check.verdict.wf() && self.judged(
                            target@,
                            ips@,
                            check.verdict@,
                        ),
                    }
                },
            },
    {
        let ips = match resolved {
            Ok(ips) => ips,
            Err(ResolveError::NxDomain) => {
                return Err(CheckError::NotFound);
            },
            Err(e) => {
                return Err(CheckError::ResolveError(e));
            },
        };
        if ips.len() == 0 {
            return Err(CheckError::NotFound);
        }
        let geo = match geo {
            Some(Ok(info)) => info,
            Some(Err(_)) => {
                return Err(CheckError::GeoIpError);
            },
            None => IpInfo::default(),
        };
        let providers = self.matched_providers(&ips);
        let domain = match target {
            Target::Domain(name) => self.ru_blacklist.contains_domain(name.as_str()),
            _ => None,
        };
        let subnets = self.matched_subnets(&ips);
        let verdict = CheckVerdict::from_evidence(domain, subnets, providers);
        Ok(Check { verdict, geo, ips })
    }

    /// Replaces the geolocation databases by those opened from what was
    /// fetched for them: the databases of autonomous systems, of countries
    /// and of cities, in that order. Where nothing was fetched or one of
    /// them could not be opened, the databases stay as they were.
    pub fn install_geo(
        &mut self,
        fetched: Option<(Result<D, GeoError>, Result<D, GeoError>, Result<D, GeoError>)>,
    ) -> (r: Refresh<GeoError>)
        ensures
            geo_refreshed(old(self).geo(), final(self).geo(), fetched, r),
            final(self).cdn_list() == old(self).cdn_list(),
            final(self).ru_blacklist() == old(self).ru_blacklist(),
            final(self).refreshed_at() == old(self).refreshed_at(),
    {
        match fetched {
            None => Refresh::NotDownloaded,
            Some((asn, country, city)) => match self.geo_ip.update(asn, country, city) {
                Ok(()) => Refresh::Installed,
                Err(e) => Refresh::Rejected(e),
            },
        }
    }

    /// Replaces the blocked networks and domains by what was fetched for
    /// them: the lines of networks, then the lines of domains. Where
    /// nothing was fetched or a line is no network, they stay as they were.
    pub fn install_rkn(&mut self, fetched: Option<(Vec<String>, Vec<String>)>) -> (r: Refresh<
        UpdateError,
    >)
        requires
            old(self).wf(),
        ensures
            final(self).wf(),
            rkn_refreshed(old(self).ru_blacklist(), final(self).ru_blacklist(), fetched, r),
            final(self).cdn_list() == old(self).cdn_list(),
            final(self).geo() == old(self).geo(),
            final(self).refreshed_at() == old(self).refreshed_at(),
    {
        match fetched {
            None => Refresh::NotDownloaded,
            Some((ip_lines, domain_lines)) => match self.ru_blacklist.update(
                &ip_lines,
                &domain_lines,
            ) {
                Ok(()) => Refresh::Installed,
                Err(e) => Refresh::Rejected(e),
            },
        }
    }

    /// Replaces the CDN ranges by the rows fetched for them. Where nothing
    /// was fetched or a row names no network, they stay as they were.
    pub fn install_cdn(&mut self, fetched: Option<Vec<CdnRow>>) -> (r: Refresh<UpdateError>)
        requires
            old(self).wf(),
        ensures
            final(self).wf(),
            cdn_refreshed(old(self).cdn_list(), final(self).cdn_list(), fetched, r),
            final(self).ru_blacklist() == old(self).ru_blacklist(),
            final(self).geo() == old(self).geo(),
            final(self).refreshed_at() == old(self).refreshed_at(),
    {
        match fetched {
            None => Refresh::NotDownloaded,
            Some(rows) => match self.cdn_list.update(&rows) {
                Ok(()) => Refresh::Installed,
                Err(e) => Refresh::Rejected(e),
            },
        }
    }

    /// Makes `now` the time of the last refresh.
    pub fn publish(&mut self, now: i64)
        ensures
            final(self).refreshed_at() == Some(now),
            final(self).cdn_list() == old(self).cdn_list(),
            final(self).ru_blacklist() == old(self).ru_blacklist(),
            final(self).geo() == old(self).geo(),
    {
        self.last_update = Some(now);
    }

    /// Refreshes the geolocation databases, the blacklist and the CDN
    /// ranges, in that order, from what was fetched for each, and makes
    /// `now` the time of the last refresh.
    ///
    /// The datasets do not depend on one another: one for which nothing
    /// was fetched, or which cannot use what was fetched, stays as it was,
    /// and the others are refreshed all the same.
    pub fn update_all(
        &mut self,
        geo: Option<(Result<D, GeoError>, Result<D, GeoError>, Result<D, GeoError>)>,
        rkn: Option<(Vec<String>, Vec<String>)>,
        cdn: Option<Vec<CdnRow>>,
        now: i64,
    ) -> (r: UpdateReport)
        requires
            old(self).wf(),
        ensures
            final(self).wf(),
            final(self).refreshed_at() == Some(now),
            geo_refreshed(old(self).geo(), final(self).geo(), geo, r.geo),
            rkn_refreshed(old(self).ru_blacklist(), final(self).ru_blacklist(), rkn, r.rkn),
            cdn_refreshed(old(self).cdn_list(), final(self).cdn_list(), cdn, r.cdn),
    {
        let geo_done = self.install_geo(geo);
        let rkn_done = self.install_rkn(rkn);
        let cdn_done = self.install_cdn(cdn);
        self.publish(now);
        UpdateReport { geo: geo_done, rkn: rkn_done, cdn: cdn_done }
    }

    /// When the datasets were last refreshed, in seconds since the epoch,
    /// and `None` before the first refresh.
    pub fn last_update(&self) -> (r: Option<i64>)
        ensures
            r == self.refreshed_at(),
    {
        self.last_update
    }

    /// How many domain lines the blacklist was made from.
    pub fn total_domains(&self) -> (r: usize)
        ensures
            r == self.ru_blacklist().domain_total(),
    {
        self.ru_blacklist.domain_count()
    }

    /// How many IPv4 addresses the CDN ranges hold, plus how many the
    /// blocked networks hold.
    pub fn total_v4s(&self) -> (r: u64)
        ensures
            r == crate::prefix_table::v4_covered(self.cdn_list().nets()).len()
                + crate::prefix_table::v4_covered(self.ru_blacklist().nets()).len(),
    {
        self.cdn_list.v4_count() + self.ru_blacklist.v4_count()
    }
}

} // verus!
