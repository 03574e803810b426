//! Name resolution: static tables, pass-through, and address ordering.
use vstd::prelude::*;
use crate::config::business::{copy_opt_string, BusinessContext};
use crate::config::policy::{DnsPolicy, DnsSelectionStrategy};
use crate::error::NetError;
use crate::seqs::{lemma_split_front, rotate_left, rotated, split_by_flags, stable_split};
use crate::strmap::StrMap;
use crate::text::{chars_of, has_char, push_str};
use crate::time::Duration;
use crate::types::endpoint::{opt_text, Endpoint};

verus! {

/// One address a host resolves to.
#[derive(Debug)]
pub struct ResolvedAddress {
    pub ip: String,
    pub port: u16,
    pub region: Option<String>,
    pub weight: u16,
    pub is_ipv6: bool,
}

impl Clone for ResolvedAddress {
    fn clone(&self) -> (r: Self)
        ensures
            r == *self,
    {
        ResolvedAddress {
            ip: self.ip.clone(),
            port: self.port,
            region: copy_opt_string(&self.region),
            weight: self.weight,
            is_ipv6: self.is_ipv6,
        }
    }
}

/// The addresses of a host, how long they may be kept, and where they came from.
#[derive(Debug)]
pub struct DnsRecord {
    pub host: String,
    pub ttl: Duration,
    pub source: String,
    pub addresses: Vec<ResolvedAddress>,
}

/// A record as plain values.
pub struct DnsRecordView {
    pub host: Seq<char>,
    pub ttl: Duration,
    pub source: Seq<char>,
    pub addresses: Seq<ResolvedAddress>,
}

impl View for DnsRecord {
    type V = DnsRecordView;

    open spec fn view(&self) -> DnsRecordView {
        DnsRecordView { host: self.host@, ttl: self.ttl, source: self.source@, addresses: self.addresses@ }
    }
}

/// A copy of a list of addresses.
fn copy_addresses(v: &Vec<ResolvedAddress>) -> (r: Vec<ResolvedAddress>)
    ensures
        r@ == v@,
{
    let mut r: Vec<ResolvedAddress> = Vec::new();
    let mut i: usize = 0;
    while i < v.len()
        invariant
            i <= v@.len(),
            r@ == v@.take(i as int),
        decreases v.len() - i,
    {
        r.push(v[i].clone());
        assert(v@.take(i + 1) =~= v@.take(i as int).push(v@[i as int]));
        i = i + 1;
    }
    assert(v@.take(v@.len() as int) =~= v@);
    r
}

impl Clone for DnsRecord {
    fn clone(&self) -> (r: Self)
        ensures
            r@ == self@,
    {
        DnsRecord {
            host: self.host.clone(),
            ttl: self.ttl,
            source: self.source.clone(),
            addresses: copy_addresses(&self.addresses),
        }
    }
}

/// Turns an endpoint into addresses.
pub trait Resolver {
    fn resolve(&mut self, endpoint: &Endpoint, context: &BusinessContext, policy: &DnsPolicy) -> Result<DnsRecord, NetError>;
}

/// Uses the endpoint's host as its only address.
#[derive(Debug, Default)]
pub struct PassthroughResolver;

impl Resolver for PassthroughResolver {
    /// The host itself, at the endpoint's port (443 by default), in the
    /// caller's region, IPv6 when the host holds a `:`, kept for the TTL floor.
    fn resolve(&mut self, endpoint: &Endpoint, context: &BusinessContext, policy: &DnsPolicy) -> (r: Result<DnsRecord, NetError>)
        ensures
            r matches Ok(rec) && rec@.host == endpoint@.host && rec.ttl == policy.ttl_floor
                && rec@.source == "passthrough"@ && rec@.addresses.len() == 1
                && rec@.addresses[0].ip@ == endpoint@.host
                && rec@.addresses[0].port == (match endpoint@.port { Some(p) => p, None => 443 })
                && rec@.addresses[0].region == context.region
                && rec@.addresses[0].weight == 100
                && rec@.addresses[0].is_ipv6 == endpoint@.host.contains(':'),
    {
        let host_chars = chars_of(endpoint.host());
        let port = match endpoint.port() {
            Some(p) => p,
            None => 443,
        };
        let mut addresses: Vec<ResolvedAddress> = Vec::new();
        addresses.push(ResolvedAddress {
            ip: endpoint.host().to_owned(),
            port,
            region: copy_opt_string(&context.region),
            weight: 100,
            is_ipv6: has_char(&host_chars, ':'),
        });
        Ok(DnsRecord {
            host: endpoint.host().to_owned(),
            ttl: policy.ttl_floor,
            source: "passthrough".to_owned(),
            addresses,
        })
    }
}

/// Resolves from a table of records, keyed by host.
#[derive(Debug)]
pub struct StaticResolver {
    table: StrMap<DnsRecord>,
    sequence: usize,
}

/// The address is IPv6.
pub open spec fn ipv6_address() -> spec_fn(ResolvedAddress) -> bool {
    |a: ResolvedAddress| a.is_ipv6
}

/// The address is in `region`.
pub open spec fn address_in(region: Seq<char>) -> spec_fn(ResolvedAddress) -> bool {
    |a: ResolvedAddress| opt_text(a.region) == Some(region)
}

/// The addresses in the order they are offered: IPv6 first if preferred;
/// then rotated by the sequence number (round robin), the caller's region
/// first (region first), or only the first (primary only). Each step keeps the
/// earlier order among equals.
pub open spec fn ordered_addresses(a: Seq<ResolvedAddress>, policy: DnsPolicy, region: Option<Seq<char>>, sequence: usize) -> Seq<ResolvedAddress> {
    let b = if policy.prefer_ipv6 { stable_split(a, ipv6_address()) } else { a };
    match policy.strategy {
        DnsSelectionStrategy::RoundRobin => rotated(b, (sequence as int) % (b.len() as int)),
        DnsSelectionStrategy::RegionFirst => match region {
            Some(r) => stable_split(b, address_in(r)),
            None => b,
        },
        DnsSelectionStrategy::PrimaryOnly => seq![b[0]],
    }
}

/// How the IPv6 preference orders the addresses offered. With the
/// preference set, every IPv6 address comes before every IPv4 one (so under
/// primary-only the single address offered is IPv6 whenever the record has
/// one); without it the stored order is kept. Nothing is invented or lost.
pub proof fn law_ipv6_preference(a: Seq<ResolvedAddress>, policy: DnsPolicy, region: Option<Seq<char>>, sequence: usize)
    requires
        a.len() > 0,
    ensures
        policy.prefer_ipv6 && policy.strategy == DnsSelectionStrategy::PrimaryOnly
            && (exists|k: int| 0 <= k < a.len() && #[trigger] a[k].is_ipv6) ==> ({
            let o = ordered_addresses(a, policy, region, sequence);
            o.len() == 1 && o[0].is_ipv6 && a.contains(o[0])
        }),
        !policy.prefer_ipv6 && policy.strategy == DnsSelectionStrategy::PrimaryOnly
            ==> ordered_addresses(a, policy, region, sequence) == seq![a[0]],
        policy.prefer_ipv6 && (policy.strategy == DnsSelectionStrategy::RegionFirst && region is None
            || policy.strategy == DnsSelectionStrategy::RoundRobin && sequence == 0) ==> ({
            let o = ordered_addresses(a, policy, region, sequence);
            &&& o.len() == a.len()
            &&& forall|i: int, j: int| 0 <= i < j < o.len() && (#[trigger] o[j]).is_ipv6 ==> (#[trigger] o[i]).is_ipv6
            &&& forall|i: int| 0 <= i < o.len() ==> a.contains(#[trigger] o[i])
        }),
        !policy.prefer_ipv6 && (policy.strategy == DnsSelectionStrategy::RegionFirst && region is None
            || policy.strategy == DnsSelectionStrategy::RoundRobin && sequence == 0)
            ==> ordered_addresses(a, policy, region, sequence) == a,
{
    lemma_split_front(a, ipv6_address());
    let b = stable_split(a, ipv6_address());
    let n = a.len() as int;
    assert(0int % n == 0) by (nonlinear_arith)
        requires
            n > 0,
    ;
    assert(b.skip(0) =~= b);
    assert(b.take(0) =~= Seq::<ResolvedAddress>::empty());
    assert(b.skip(0) + b.take(0) =~= b);
    assert(a.skip(0) + a.take(0) =~= a);
    if exists|k: int| 0 <= k < a.len() && #[trigger] a[k].is_ipv6 {
        let k = choose|k: int| 0 <= k < a.len() && #[trigger] a[k].is_ipv6;
        assert(ipv6_address()(a[k]));
    }
    let o = ordered_addresses(a, policy, region, sequence);
    if policy.prefer_ipv6 && (policy.strategy == DnsSelectionStrategy::RegionFirst && region is None
        || policy.strategy == DnsSelectionStrategy::RoundRobin && sequence == 0) {
        assert(o == b);
        assert forall|i: int, j: int| 0 <= i < j < o.len() && (#[trigger] o[j]).is_ipv6 implies (#[trigger] o[i]).is_ipv6 by {
            assert(ipv6_address()(b[j]));
        }
    }
}

/// Without the IPv6 preference: region-first puts every address in the
/// caller's region before every address outside it; round robin starts at the
/// address whose turn it is and keeps all of them; nothing is invented.
pub proof fn law_address_strategies(a: Seq<ResolvedAddress>, policy: DnsPolicy, region: Seq<char>, sequence: usize)
    requires
        a.len() > 0,
        !policy.prefer_ipv6,
    ensures
        policy.strategy == DnsSelectionStrategy::RegionFirst ==> ({
            let o = ordered_addresses(a, policy, Some(region), sequence);
            &&& o.len() == a.len()
            &&& forall|i: int, j: int| 0 <= i < j < o.len() && opt_text((#[trigger] o[j]).region) == Some(region)
                ==> opt_text((#[trigger] o[i]).region) == Some(region)
            &&& forall|i: int| 0 <= i < o.len() ==> a.contains(#[trigger] o[i])
        }),
        policy.strategy == DnsSelectionStrategy::RoundRobin ==> ({
            let o = ordered_addresses(a, policy, Some(region), sequence);
            &&& o.len() == a.len()
            &&& o[0] == a[(sequence as int) % (a.len() as int)]
            &&& forall|i: int| 0 <= i < o.len() ==> a.contains(#[trigger] o[i])
        }),
{
    lemma_split_front(a, address_in(region));
    let n = a.len() as int;
    let k = (sequence as int) % n;
    assert(0 <= k < n) by (nonlinear_arith)
        requires
            n > 0,
            k == (sequence as int) % n,
    ;
    let o = ordered_addresses(a, policy, Some(region), sequence);
    if policy.strategy == DnsSelectionStrategy::RegionFirst {
        assert forall|i: int, j: int| 0 <= i < j < o.len() && opt_text((#[trigger] o[j]).region) == Some(region)
            implies opt_text((#[trigger] o[i]).region) == Some(region) by {
            assert(address_in(region)(o[j]));
        }
    }
    if policy.strategy == DnsSelectionStrategy::RoundRobin {
        assert(o == a.skip(k) + a.take(k));
        assert forall|i: int| 0 <= i < o.len() implies a.contains(#[trigger] o[i]) by {
            if i < n - k {
                assert(o[i] == a[k + i]);
            } else {
                assert(o[i] == a[i - (n - k)]);
            }
        }
    }
}

/// The TTL offered is never below the policy's floor and never below the
/// stored TTL: the stored one when it reaches the floor, the floor otherwise.
pub proof fn law_ttl_floor(rec: DnsRecordView, policy: DnsPolicy, region: Option<Seq<char>>, sequence: usize)
    ensures
        resolved_record(rec, policy, region, sequence).ttl.total_nanos() >= policy.ttl_floor.total_nanos(),
        resolved_record(rec, policy, region, sequence).ttl.total_nanos() >= rec.ttl.total_nanos(),
        resolved_record(rec, policy, region, sequence).ttl == rec.ttl || resolved_record(rec, policy, region, sequence).ttl
            == policy.ttl_floor,
        resolved_record(rec, policy, region, sequence).host == rec.host,
{
}

/// The record offered for a stored record: addresses ordered, TTL raised to the floor.
pub open spec fn resolved_record(rec: DnsRecordView, policy: DnsPolicy, region: Option<Seq<char>>, sequence: usize) -> DnsRecordView {
    DnsRecordView {
        addresses: ordered_addresses(rec.addresses, policy, region, sequence),
        ttl: if rec.ttl.total_nanos() < policy.ttl_floor.total_nanos() { policy.ttl_floor } else { rec.ttl },
        ..rec
    }
}

impl StaticResolver {
    /// The stored records by host.
    pub closed spec fn records(&self) -> Map<Seq<char>, DnsRecord> {
        self.table@
    }

    /// The sequence number the next round-robin resolution rotates by.
    pub closed spec fn turn(&self) -> usize {
        self.sequence
    }

    /// An empty table.
    pub fn new() -> (r: StaticResolver)
        ensures
            r.records() == Map::<Seq<char>, DnsRecord>::empty(),
            r.turn() == 0,
    {
        StaticResolver { table: StrMap::new(), sequence: 0 }
    }

    /// This table with `record` stored under its host.
    pub fn insert(self, record: DnsRecord) -> (r: StaticResolver)
        ensures
            r.records() == self.records().insert(record.host@, record),
            r.turn() == self.turn(),
    {
        let mut r = self;
        r.push(record);
        r
    }

    /// Stores `record` under its host, replacing any earlier one.
    pub fn push(&mut self, record: DnsRecord)
        ensures
            final(self).records() == old(self).records().insert(record.host@, record),
            final(self).turn() == old(self).turn(),
    {
        let host = record.host.clone();
        let _ = self.table.insert(host, record);
    }
}

impl Default for StaticResolver {
    fn default() -> (r: Self)
        ensures
            r.records() == Map::<Seq<char>, DnsRecord>::empty(),
            r.turn() == 0,
    {
        StaticResolver::new()
    }
}

impl Resolver for StaticResolver {
    /// Looks the endpoint's host up; fails when it is unknown or has no
    /// addresses; otherwise offers `resolved_record` of it. Round robin
    /// advances the sequence number.
    fn resolve(&mut self, endpoint: &Endpoint, context: &BusinessContext, policy: &DnsPolicy) -> (r: Result<DnsRecord, NetError>)
        ensures
            final(self).records() == old(self).records(),
            match old(self).records().get(endpoint@.host) {
                None => r matches Err(NetError::Dns(m)) && m@ == "no dns record found for host `"@ + endpoint@.host + "`"@
                    && final(self).turn() == old(self).turn(),
                Some(rec) => if rec@.addresses.len() == 0 {
                    &&& r matches Err(NetError::Dns(m)) && m@ == "dns record for host `"@ + endpoint@.host + "` has no addresses"@
                    &&& final(self).turn() == old(self).turn()
                } else {
                    &&& r matches Ok(out) && out@ == resolved_record(rec@, *policy, opt_text(context.region), old(self).turn())
                    &&& final(self).turn() == if policy.strategy == DnsSelectionStrategy::RoundRobin {
                        if old(self).turn() == usize::MAX { 0 } else { (old(self).turn() + 1) as usize }
                    } else {
                        old(self).turn()
                    }
                },
            },
    {
        let mut record = match self.table.get(endpoint.host()) {
            Some(rec) => rec.clone(),
            None => {
                let mut m = "no dns record found for host `".to_owned();
                push_str(&mut m, endpoint.host());
                push_str(&mut m, "`");
                return Err(NetError::Dns(m));
            },
        };
        if record.addresses.len() == 0 {
            let mut m = "dns record for host `".to_owned();
            push_str(&mut m, endpoint.host());
            push_str(&mut m, "` has no addresses");
            return Err(NetError::Dns(m));
        }
        let ghost a = record.addresses@;
        let mut addresses = Vec::new();
        std::mem::swap(&mut addresses, &mut record.addresses);
        if policy.prefer_ipv6 {
            let mut flags: Vec<bool> = Vec::new();
            let mut i: usize = 0;
            while i < addresses.len()
                invariant
                    i <= addresses@.len(),
                    flags@.len() == i,
                    forall|k: int| 0 <= k < i ==> flags@[k] == ipv6_address()(#[trigger] addresses@[k]),
                decreases addresses.len() - i,
            {
                flags.push(addresses[i].is_ipv6);
                i = i + 1;
            }
            addresses = split_by_flags(addresses, &flags, Ghost(ipv6_address()));
            proof {
                crate::seqs::lemma_split_length(a, ipv6_address());
            }
        }
        let ghost b = addresses@;
        assert(b.len() == a.len());
        match policy.strategy {
            DnsSelectionStrategy::RoundRobin => {
                let offset = self.sequence;
                self.sequence = if self.sequence == usize::MAX { 0 } else { self.sequence + 1 };
                let len = addresses.len();
                addresses = rotate_left(addresses, offset % len);
            },
            DnsSelectionStrategy::RegionFirst => {
                match &context.region {
                    Some(region) => {
                        let mut flags: Vec<bool> = Vec::new();
                        let mut i: usize = 0;
                        while i < addresses.len()
                            invariant
                                i <= addresses@.len(),
                                flags@.len() == i,
                                forall|k: int| 0 <= k < i ==> flags@[k] == address_in(region@)(#[trigger] addresses@[k]),
                            decreases addresses.len() - i,
                        {
                            let same = match &addresses[i].region {
                                Some(x) => *x == *region,
                                None => false,
                            };
                            flags.push(same);
                            i = i + 1;
                        }
                        addresses = split_by_flags(addresses, &flags, Ghost(address_in(region@)));
                    },
                    None => {},
                }
            },
            DnsSelectionStrategy::PrimaryOnly => {
                let primary = addresses[0].clone();
                let mut only: Vec<ResolvedAddress> = Vec::new();
                only.push(primary);
                addresses = only;
                assert(addresses@ =~= seq![b[0]]);
            },
        }
        record.addresses = addresses;
        if record.ttl.shorter_than(&policy.ttl_floor) {
            record.ttl = policy.ttl_floor;
        }
        Ok(record)
    }
}

} // verus!
