//! CDN routing: choosing an edge node and the fallbacks behind it.
use vstd::prelude::*;
use crate::config::business::{copy_strings, texts, BusinessContext};
use crate::config::policy::{CdnPolicy, CdnStrategy};
use crate::error::NetError;
use crate::seqs::{occurrences, lemma_occurrences_keep, lemma_occurrences_split, lemma_occurrences_band, lemma_occurrences_rotated, lemma_occurrences_len, keep, lemma_band_empty, lemma_band_length, lemma_band_split, lemma_keep_all, lemma_keep_contains, lemma_keep_members, lemma_keep_none, lemma_keep_push, lemma_split_front, rotate_left, rotated, split_by_flags, stable_split, weight_band, at_weight};
use crate::types::endpoint::{opt_text, Endpoint, EndpointView};

verus! {

/// An edge node: name, domain, region, weight, health and tags.
#[derive(Debug)]
pub struct EdgeNode {
    pub name: String,
    pub domain: String,
    pub region: Option<String>,
    pub weight: u16,
    pub healthy: bool,
    pub tags: Vec<String>,
}

impl Clone for EdgeNode {
    fn clone(&self) -> (r: Self)
        ensures
            r.name == self.name,
            r.domain == self.domain,
            r.region == self.region,
            r.weight == self.weight,
            r.healthy == self.healthy,
            r.tags@ == self.tags@,
    {
        EdgeNode {
            name: self.name.clone(),
            domain: self.domain.clone(),
            region: crate::config::business::copy_opt_string(&self.region),
            weight: self.weight,
            healthy: self.healthy,
            tags: copy_strings(&self.tags),
        }
    }
}

/// Where a request goes: the chosen endpoint, the node, the endpoints to try
/// after it, and headers to rewrite.
#[derive(Debug)]
pub struct CdnDecision {
    pub selected: Endpoint,
    pub node_name: Option<String>,
    pub fallbacks: Vec<Endpoint>,
    pub rewrite_headers: Vec<(String, String)>,
}

/// A routing decision as plain values.
pub struct CdnDecisionView {
    pub selected: EndpointView,
    pub node_name: Option<Seq<char>>,
    pub fallbacks: Seq<EndpointView>,
    pub rewrite_headers: Seq<(Seq<char>, Seq<char>)>,
}

impl View for CdnDecision {
    type V = CdnDecisionView;

    open spec fn view(&self) -> CdnDecisionView {
        CdnDecisionView {
            selected: self.selected@,
            node_name: opt_text(self.node_name),
            fallbacks: endpoint_views(self.fallbacks@),
            rewrite_headers: self.rewrite_headers@.map_values(|p: (String, String)| (p.0@, p.1@)),
        }
    }
}

/// The views of a list of endpoints.
pub open spec fn endpoint_views(s: Seq<Endpoint>) -> Seq<EndpointView> {
    s.map_values(|e: Endpoint| e@)
}

/// `origin` redirected to each listed node.
pub open spec fn node_targets(origin: EndpointView, nodes: Seq<EdgeNode>, order: Seq<usize>) -> Seq<EndpointView> {
    order.map_values(|i: usize| via_node(origin, nodes, i))
}

/// Going straight to the origin.
pub open spec fn direct_decision(origin: EndpointView) -> CdnDecisionView {
    CdnDecisionView { selected: origin, node_name: None, fallbacks: Seq::empty(), rewrite_headers: Seq::empty() }
}

/// Chooses where a request to `origin` is sent.
pub trait CdnRouter {
    fn route(&mut self, origin: &Endpoint, context: &BusinessContext, route_tags: &[String], policy: &CdnPolicy) -> Result<CdnDecision, NetError>;
}

/// Sends every request to its origin.
#[derive(Debug, Default)]
pub struct DirectCdnRouter;

/// The decision that goes straight to the origin.
pub fn direct_route(origin: &Endpoint) -> (d: CdnDecision)
    ensures
        d@ == direct_decision(origin@),
{
    let d = CdnDecision { selected: origin.clone(), node_name: None, fallbacks: Vec::new(), rewrite_headers: Vec::new() };
    assert(d@.fallbacks =~= Seq::<EndpointView>::empty());
    assert(d@.rewrite_headers =~= Seq::<(Seq<char>, Seq<char>)>::empty());
    d
}

impl CdnRouter for DirectCdnRouter {
    fn route(&mut self, origin: &Endpoint, context: &BusinessContext, route_tags: &[String], policy: &CdnPolicy) -> (r: Result<CdnDecision, NetError>)
        ensures
            r matches Ok(d) && d@ == direct_decision(origin@),
    {
        Ok(direct_route(origin))
    }
}

/// Routes by health, route tags, region affinity or weight over a set of nodes.
#[derive(Debug)]
pub struct RuleBasedCdnRouter {
    nodes: Vec<EdgeNode>,
    sequence: usize,
}

/// Node `i` is healthy.
pub open spec fn healthy_node(nodes: Seq<EdgeNode>) -> spec_fn(usize) -> bool {
    |i: usize| nodes[i as int].healthy
}

/// Node `i` carries one of the route tags.
pub open spec fn tagged_node(nodes: Seq<EdgeNode>, tags: Seq<Seq<char>>) -> spec_fn(usize) -> bool {
    |i: usize| exists|t: int| 0 <= t < tags.len() && #[trigger] texts(nodes[i as int].tags@).contains(tags[t])
}

/// Node `i` is in `region`.
pub open spec fn regional_node(nodes: Seq<EdgeNode>, region: Seq<char>) -> spec_fn(usize) -> bool {
    |i: usize| opt_text(nodes[i as int].region) == Some(region)
}

/// The weight of node `i`.
pub open spec fn node_weight(nodes: Seq<EdgeNode>) -> spec_fn(usize) -> int {
    |i: usize| nodes[i as int].weight as int
}

/// The positions `0..n`.
pub open spec fn positions(n: nat) -> Seq<usize> {
    Seq::new(n, |i: int| i as usize)
}

/// The healthy nodes, in order.
pub open spec fn healthy_order(nodes: Seq<EdgeNode>) -> Seq<usize> {
    keep(positions(nodes.len()), healthy_node(nodes))
}

/// The healthy nodes with tagged nodes first when there are route tags.
pub open spec fn tagged_order(nodes: Seq<EdgeNode>, tags: Seq<Seq<char>>) -> Seq<usize> {
    if tags.len() > 0 {
        stable_split(healthy_order(nodes), tagged_node(nodes, tags))
    } else {
        healthy_order(nodes)
    }
}

/// The order in which nodes are tried: with region affinity the nodes of the
/// caller's region first; weighted, heavier nodes first then rotated by the
/// router's sequence number; each step keeps the earlier order among equals.
pub open spec fn route_order(nodes: Seq<EdgeNode>, tags: Seq<Seq<char>>, strategy: CdnStrategy, region: Option<Seq<char>>, sequence: usize) -> Seq<usize> {
    let c = tagged_order(nodes, tags);
    match strategy {
        CdnStrategy::RegionAffinity => match region {
            Some(r) => stable_split(c, regional_node(nodes, r)),
            None => c,
        },
        CdnStrategy::Weighted => {
            let sorted = weight_band(c, node_weight(nodes), 0, 65535);
            rotated(sorted, (sequence as int) % (sorted.len() as int))
        },
        CdnStrategy::Disabled => c,
    }
}

/// Node `node` carries one of the route tags `tags`.
pub open spec fn carries_route_tag(node: EdgeNode, tags: Seq<Seq<char>>) -> bool {
    exists|t: int| 0 <= t < tags.len() && #[trigger] texts(node.tags@).contains(tags[t])
}

/// Route tags come first: with region affinity, when the caller's region is
/// unknown or every healthy node is in it, every node tried that carries one
/// of the route tags comes before every node that carries none; so the node
/// chosen carries a route tag whenever some healthy node does.
pub proof fn law_route_tags_first(nodes: Seq<EdgeNode>, tags: Seq<Seq<char>>, region: Option<Seq<char>>, sequence: usize)
    requires
        nodes.len() <= usize::MAX,
        tags.len() > 0,
        region is None || forall|k: int| 0 <= k < nodes.len() && #[trigger] nodes[k].healthy ==> opt_text(nodes[k].region) == region,
    ensures
        ({
            let o = route_order(nodes, tags, CdnStrategy::RegionAffinity, region, sequence);
            &&& forall|i: int, j: int| #![trigger o[i], o[j]] 0 <= i < j < o.len() && carries_route_tag(nodes[o[j] as int], tags)
                ==> carries_route_tag(nodes[o[i] as int], tags)
            &&& forall|i: int| 0 <= i < o.len() ==> (#[trigger] o[i] as int) < nodes.len() && nodes[o[i] as int].healthy
            &&& (exists|k: int| 0 <= k < nodes.len() && #[trigger] nodes[k].healthy && carries_route_tag(nodes[k], tags))
                ==> o.len() > 0 && carries_route_tag(nodes[o[0] as int], tags)
        }),
{
    let n = nodes.len();
    let pos = positions(n);
    let h = healthy_order(nodes);
    let t = tagged_node(nodes, tags);
    let c = tagged_order(nodes, tags);
    lemma_keep_members(pos, healthy_node(nodes));
    lemma_split_front(h, t);
    assert forall|i: int| 0 <= i < c.len() implies (#[trigger] c[i] as int) < n && nodes[c[i] as int].healthy by {
        assert(h.contains(c[i]));
        let q = choose|q: int| 0 <= q < h.len() && h[q] == c[i];
        assert(pos.contains(h[q]));
        let z = choose|z: int| 0 <= z < pos.len() && pos[z] == h[q];
        assert(healthy_node(nodes)(h[q]));
    }
    let o = route_order(nodes, tags, CdnStrategy::RegionAffinity, region, sequence);
    match region {
        Some(r) => {
            assert forall|i: int| 0 <= i < c.len() implies #[trigger] regional_node(nodes, r)(c[i]) by {
                assert(nodes[c[i] as int].healthy);
            }
            lemma_keep_all(c, regional_node(nodes, r));
            lemma_keep_none(c, crate::seqs::negated(regional_node(nodes, r)));
            assert(o =~= c);
        },
        None => {
            assert(o == c);
        },
    }
    if exists|k: int| 0 <= k < nodes.len() && #[trigger] nodes[k].healthy && carries_route_tag(nodes[k], tags) {
        let k = choose|k: int| 0 <= k < nodes.len() && #[trigger] nodes[k].healthy && carries_route_tag(nodes[k], tags);
        assert(pos[k] == k as usize);
        lemma_keep_contains(pos, healthy_node(nodes), k);
        let q = choose|q: int| 0 <= q < h.len() && h[q] == k as usize;
        assert(t(h[q]));
    }
}

/// Region affinity: whatever the route tags, every node tried that is in the
/// caller's region comes before every node outside it, and only healthy
/// nodes are tried, each at most once.
pub proof fn law_region_first(nodes: Seq<EdgeNode>, tags: Seq<Seq<char>>, region: Seq<char>, sequence: usize, x: usize)
    requires
        nodes.len() <= usize::MAX,
    ensures
        ({
            let o = route_order(nodes, tags, CdnStrategy::RegionAffinity, Some(region), sequence);
            &&& forall|i: int, j: int| #![trigger o[i], o[j]] 0 <= i < j < o.len()
                && opt_text(nodes[o[j] as int].region) == Some(region) ==> opt_text(nodes[o[i] as int].region) == Some(region)
            &&& occurrences(o, x) == if (x as int) < nodes.len() && nodes[x as int].healthy { 1nat } else { 0nat }
        }),
{
    let h = healthy_order(nodes);
    let c = tagged_order(nodes, tags);
    let rn = regional_node(nodes, region);
    lemma_split_front(c, rn);
    let o = route_order(nodes, tags, CdnStrategy::RegionAffinity, Some(region), sequence);
    assert forall|i: int, j: int| #![trigger o[i], o[j]] 0 <= i < j < o.len()
        && opt_text(nodes[o[j] as int].region) == Some(region) implies opt_text(nodes[o[i] as int].region) == Some(region) by {
        assert(rn(o[j]));
    }
    lemma_occurrences_positions(nodes.len(), x);
    lemma_occurrences_keep(positions(nodes.len()), healthy_node(nodes), x);
    if tags.len() > 0 {
        lemma_occurrences_split(h, tagged_node(nodes, tags), x);
    }
    lemma_occurrences_split(c, rn, x);
}

/// `origin` with the host of node `i`.
pub open spec fn via_node(origin: EndpointView, nodes: Seq<EdgeNode>, i: usize) -> EndpointView {
    EndpointView { host: nodes[i as int].domain@, ..origin }
}

/// The decision for a non-empty node order.
pub open spec fn edge_decision(origin: EndpointView, nodes: Seq<EdgeNode>, order: Seq<usize>, fallback_to_origin: bool) -> CdnDecisionView {
    let rest = node_targets(origin, nodes, order.skip(1));
    CdnDecisionView {
        selected: via_node(origin, nodes, order[0]),
        node_name: Some(nodes[order[0] as int].name@),
        fallbacks: if fallback_to_origin { rest.push(origin) } else { rest },
        rewrite_headers: seq![("x-origin-host"@, origin.host)],
    }
}

/// Whether node `n` carries one of `tags`.
fn has_any_tag(n: &EdgeNode, tags: &[String]) -> (r: bool)
    ensures
        r == exists|t: int| 0 <= t < tags@.len() && #[trigger] texts(n.tags@).contains(texts(tags@)[t]),
{
    let mut t: usize = 0;
    while t < tags.len()
        invariant
            t <= tags@.len(),
            forall|u: int| 0 <= u < t ==> !#[trigger] texts(n.tags@).contains(texts(tags@)[u]),
        decreases tags.len() - t,
    {
        let mut j: usize = 0;
        while j < n.tags.len()
            invariant
                j <= n.tags@.len(),
                t < tags@.len(),
                forall|v: int| 0 <= v < j ==> n.tags@[v]@ != tags@[t as int]@,
            decreases n.tags.len() - j,
        {
            if n.tags[j] == tags[t] {
                assert(texts(n.tags@)[j as int] == texts(tags@)[t as int]);
                assert(texts(n.tags@).contains(texts(tags@)[t as int]));
                return true;
            }
            j = j + 1;
        }
        proof {
            assert forall|v: int| 0 <= v < texts(n.tags@).len() implies texts(n.tags@)[v] != texts(tags@)[t as int] by {}
        }
        t = t + 1;
    }
    false
}

/// Whether the node's region is `region`.
fn in_region(n: &EdgeNode, region: &String) -> (r: bool)
    ensures
        r == (opt_text(n.region) == Some(region@)),
{
    match &n.region {
        Some(x) => *x == *region,
        None => false,
    }
}

/// The positions of `v`, in order.
fn index_list(n: usize) -> (r: Vec<usize>)
    ensures
        r@ == positions(n as nat),
{
    let mut r: Vec<usize> = Vec::new();
    let mut i: usize = 0;
    while i < n
        invariant
            i <= n,
            r@ == positions(i as nat),
        decreases n - i,
    {
        r.push(i);
        assert(r@ =~= positions((i + 1) as nat));
        i = i + 1;
    }
    r
}

/// The positions in `c` whose nodes are healthy.
fn healthy_positions(nodes: &Vec<EdgeNode>) -> (r: Vec<usize>)
    ensures
        r@ == healthy_order(nodes@),
        forall|i: int| 0 <= i < r@.len() ==> r@[i] < nodes@.len(),
{
    let all = index_list(nodes.len());
    let mut r: Vec<usize> = Vec::new();
    let mut i: usize = 0;
    while i < nodes.len()
        invariant
            i <= nodes@.len(),
            all@ == positions(nodes@.len()),
            r@ == keep(all@.take(i as int), healthy_node(nodes@)),
            forall|j: int| 0 <= j < r@.len() ==> r@[j] < i,
        decreases nodes.len() - i,
    {
        proof {
            assert(all@.take(i + 1) =~= all@.take(i as int).push(all@[i as int]));
            lemma_keep_push(all@.take(i as int), healthy_node(nodes@), all@[i as int]);
        }
        if nodes[i].healthy {
            r.push(i);
        }
        i = i + 1;
    }
    assert(all@.take(nodes@.len() as int) =~= all@);
    r
}

/// The positions in `c` grouped by node weight from heaviest to lightest.
fn sort_by_weight(nodes: &Vec<EdgeNode>, c: Vec<usize>) -> (r: Vec<usize>)
    requires
        forall|i: int| 0 <= i < c@.len() ==> c@[i] < nodes@.len(),
    ensures
        r@ == weight_band(c@, node_weight(nodes@), 0, 65535),
        r@.len() == c@.len(),
{
    let ghost w = node_weight(nodes@);
    let ghost s = c@;
    if c.len() == 0 {
        proof {
            lemma_band_empty(s, w, 0, 65535);
        }
        return c;
    }
    let mut max_w: u16 = nodes[c[0]].weight;
    let mut min_w: u16 = nodes[c[0]].weight;
    let mut i: usize = 1;
    while i < c.len()
        invariant
            s == c@,
            1 <= i <= s.len(),
            forall|j: int| 0 <= j < s.len() ==> s[j] < nodes@.len(),
            w == node_weight(nodes@),
            forall|j: int| 0 <= j < i ==> min_w <= w(#[trigger] s[j]) <= max_w,
            min_w <= max_w,
        decreases c.len() - i,
    {
        let x = nodes[c[i]].weight;
        if x > max_w {
            max_w = x;
        }
        if x < min_w {
            min_w = x;
        }
        i = i + 1;
    }
    let mut out: Vec<usize> = Vec::new();
    let mut level: u32 = max_w as u32 + 1;
    proof {
        assert(weight_band(s, w, max_w + 1, max_w as int) =~= Seq::<usize>::empty());
    }
    while level > min_w as u32
        invariant
            s == c@,
            forall|j: int| 0 <= j < s.len() ==> s[j] < nodes@.len(),
            w == node_weight(nodes@),
            min_w <= level <= max_w + 1,
            out@ == weight_band(s, w, level as int, max_w as int),
        decreases level,
    {
        let lv = level - 1;
        let mut j: usize = 0;
        let mut group: Vec<usize> = Vec::new();
        while j < c.len()
            invariant
                s == c@,
                j <= s.len(),
                forall|k: int| 0 <= k < s.len() ==> s[k] < nodes@.len(),
                w == node_weight(nodes@),
                group@ == keep(s.take(j as int), at_weight(w, lv as int)),
            decreases c.len() - j,
        {
            proof {
                assert(s.take(j + 1) =~= s.take(j as int).push(s[j as int]));
                lemma_keep_push(s.take(j as int), at_weight(w, lv as int), s[j as int]);
            }
            if nodes[c[j]].weight as u32 == lv {
                group.push(c[j]);
            }
            j = j + 1;
        }
        proof {
            assert(s.take(s.len() as int) =~= s);
            lemma_band_split(s, w, lv as int, lv + 1, max_w as int);
            assert(weight_band(s, w, lv as int, lv - 1) =~= Seq::<usize>::empty());
            assert(weight_band(s, w, lv as int, lv as int) =~= keep(s, at_weight(w, lv as int)));
        }
        out.append(&mut group);
        level = lv;
    }
    proof {
        lemma_band_empty(s, w, max_w + 1, 65535);
        lemma_band_empty(s, w, 0, min_w - 1);
        lemma_band_split(s, w, 0, max_w + 1, 65535);
        lemma_band_split(s, w, 0, min_w as int, max_w as int);
        assert(out@ =~= weight_band(s, w, 0, 65535));
        lemma_band_length(s, w, 0, 65535);
    }
    out
}


/// The sequence number after `n`, wrapping at `usize::MAX` as `fetch_add` does.
pub open spec fn next_turn(n: usize) -> usize {
    if n == usize::MAX { 0 } else { (n + 1) as usize }
}

/// Flags telling which listed nodes satisfy `pred`, computed by `test`.
fn tag_flags(nodes: &Vec<EdgeNode>, c: &Vec<usize>, tags: &[String]) -> (r: Vec<bool>)
    requires
        forall|i: int| 0 <= i < c@.len() ==> c@[i] < nodes@.len(),
    ensures
        r@.len() == c@.len(),
        forall|i: int| 0 <= i < c@.len() ==> r@[i] == tagged_node(nodes@, texts(tags@))(#[trigger] c@[i]),
{
    let mut r: Vec<bool> = Vec::new();
    let mut i: usize = 0;
    while i < c.len()
        invariant
            i <= c@.len(),
            r@.len() == i,
            forall|k: int| 0 <= k < c@.len() ==> c@[k] < nodes@.len(),
            forall|k: int| 0 <= k < i ==> r@[k] == tagged_node(nodes@, texts(tags@))(#[trigger] c@[k]),
        decreases c.len() - i,
    {
        r.push(has_any_tag(&nodes[c[i]], tags));
        i = i + 1;
    }
    r
}

fn region_flags(nodes: &Vec<EdgeNode>, c: &Vec<usize>, region: &String) -> (r: Vec<bool>)
    requires
        forall|i: int| 0 <= i < c@.len() ==> c@[i] < nodes@.len(),
    ensures
        r@.len() == c@.len(),
        forall|i: int| 0 <= i < c@.len() ==> r@[i] == regional_node(nodes@, region@)(#[trigger] c@[i]),
{
    let mut r: Vec<bool> = Vec::new();
    let mut i: usize = 0;
    while i < c.len()
        invariant
            i <= c@.len(),
            r@.len() == i,
            forall|k: int| 0 <= k < c@.len() ==> c@[k] < nodes@.len(),
            forall|k: int| 0 <= k < i ==> r@[k] == regional_node(nodes@, region@)(#[trigger] c@[k]),
        decreases c.len() - i,
    {
        r.push(in_region(&nodes[c[i]], region));
        i = i + 1;
    }
    r
}

proof fn lemma_split_bounds(c: Seq<usize>, p: spec_fn(usize) -> bool, n: nat)
    requires
        forall|i: int| 0 <= i < c.len() ==> c[i] < n,
    ensures
        stable_split(c, p).len() == c.len(),
        forall|i: int| 0 <= i < stable_split(c, p).len() ==> stable_split(c, p)[i] < n,
{
    crate::seqs::lemma_keep_members(c, p);
    crate::seqs::lemma_keep_members(c, crate::seqs::negated(p));
    crate::seqs::lemma_split_length(c, p);
    let s = stable_split(c, p);
    assert forall|i: int| 0 <= i < s.len() implies s[i] < n by {
        let a = keep(c, p);
        let b = keep(c, crate::seqs::negated(p));
        if i < a.len() {
            assert(s[i] == a[i]);
            assert(c.contains(a[i]));
        } else {
            assert(s[i] == b[i - a.len()]);
            assert(c.contains(b[i - a.len()]));
        }
    }
}

impl RuleBasedCdnRouter {
    /// The nodes, in the order given.
    pub closed spec fn node_seq(&self) -> Seq<EdgeNode> {
        self.nodes@
    }

    /// The sequence number the next weighted route rotates by.
    pub closed spec fn turn(&self) -> usize {
        self.sequence
    }

    /// A router over `nodes`, starting its rotation at zero.
    pub fn new(nodes: Vec<EdgeNode>) -> (r: RuleBasedCdnRouter)
        ensures
            r.node_seq() == nodes@,
            r.turn() == 0,
    {
        RuleBasedCdnRouter { nodes, sequence: 0 }
    }
}

impl CdnRouter for RuleBasedCdnRouter {
    /// Routes over the healthy nodes: straight to the origin when routing is
    /// disabled or there are no nodes; to the origin (or an error) when no node
    /// is healthy; otherwise to the first node of `route_order`, with the rest
    /// (and the origin, if allowed) as fallbacks.
    fn route(&mut self, origin: &Endpoint, context: &BusinessContext, route_tags: &[String], policy: &CdnPolicy) -> (r: Result<CdnDecision, NetError>)
        ensures
            final(self).node_seq() == old(self).node_seq(),
            ({
                let nodes = old(self).node_seq();
                let order = route_order(nodes, texts(route_tags@), policy.strategy, opt_text(context.region), old(self).turn());
                if policy.strategy == CdnStrategy::Disabled || nodes.len() == 0 {
                    &&& r matches Ok(d) && d@ == direct_decision(origin@)
                    &&& final(self).turn() == old(self).turn()
                } else if healthy_order(nodes).len() == 0 {
                    &&& policy.fallback_to_origin ==> (r matches Ok(d) && d@ == direct_decision(origin@))
                    &&& !policy.fallback_to_origin ==> (r matches Err(NetError::Cdn(m)) && m@ == "all cdn nodes are unhealthy"@)
                    &&& final(self).turn() == old(self).turn()
                } else {
                    &&& r matches Ok(d) && d@ == edge_decision(origin@, nodes, order, policy.fallback_to_origin)
                    &&& final(self).turn() == if policy.strategy == CdnStrategy::Weighted { next_turn(old(self).turn()) } else { old(self).turn() }
                }
            }),
    {
        if matches!(policy.strategy, CdnStrategy::Disabled) || self.nodes.len() == 0 {
            return Ok(direct_route(origin));
        }
        let ghost nodes = self.nodes@;
        let ghost tags = texts(route_tags@);
        let healthy = healthy_positions(&self.nodes);
        if healthy.len() == 0 {
            if policy.fallback_to_origin {
                return Ok(direct_route(origin));
            }
            return Err(NetError::Cdn("all cdn nodes are unhealthy".to_owned()));
        }
        let mut candidates = healthy;
        if route_tags.len() > 0 {
            let flags = tag_flags(&self.nodes, &candidates, route_tags);
            proof {
                lemma_split_bounds(candidates@, tagged_node(nodes, tags), nodes.len());
            }
            candidates = split_by_flags(candidates, &flags, Ghost(tagged_node(nodes, tags)));
        }
        assert(candidates@ == tagged_order(nodes, tags));
        let ghost c = candidates@;
        match policy.strategy {
            CdnStrategy::RegionAffinity => {
                match &context.region {
                    Some(region) => {
                        let flags = region_flags(&self.nodes, &candidates, region);
                        proof {
                            lemma_split_bounds(c, regional_node(nodes, region@), nodes.len());
                        }
                        candidates = split_by_flags(candidates, &flags, Ghost(regional_node(nodes, region@)));
                    },
                    None => {},
                }
            },
            CdnStrategy::Weighted => {
                let sorted = sort_by_weight(&self.nodes, candidates);
                let offset = self.sequence;
                self.sequence = if self.sequence == usize::MAX { 0 } else { self.sequence + 1 };
                let len = sorted.len();
                candidates = rotate_left(sorted, offset % len);
            },
            CdnStrategy::Disabled => {},
        }
        let ghost order = candidates@;
        assert(order == route_order(nodes, tags, policy.strategy, opt_text(context.region), old(self).turn()));
        proof {
            route_order_bounds(nodes, tags, policy.strategy, opt_text(context.region), old(self).turn());
        }
        let first = candidates[0];
        let selected = origin.clone().with_host(self.nodes[first].domain.clone());
        let mut fallbacks: Vec<Endpoint> = Vec::new();
        let mut i: usize = 1;
        while i < candidates.len()
            invariant
                1 <= i <= order.len(),
                order == candidates@,
                nodes == self.nodes@,
                forall|k: int| 0 <= k < order.len() ==> order[k] < nodes.len(),
                endpoint_views(fallbacks@) == node_targets(origin@, nodes, order.skip(1).take(i - 1)),
            decreases candidates.len() - i,
        {
            let e = origin.clone().with_host(self.nodes[candidates[i]].domain.clone());
            assert(e@ == via_node(origin@, nodes, order[i as int]));
            let ghost before = fallbacks@;
            fallbacks.push(e);
            proof {
                assert(endpoint_views(fallbacks@) =~= endpoint_views(before).push(e@));
                assert(order.skip(1)[i - 1] == order[i as int]);
                assert(node_targets(origin@, nodes, order.skip(1).take(i as int)) =~=
                    node_targets(origin@, nodes, order.skip(1).take(i - 1)).push(via_node(origin@, nodes, order[i as int])));
                assert(order.skip(1).take(i as int) =~= order.skip(1).take(i - 1).push(order[i as int]));
                assert(endpoint_views(fallbacks@) =~= node_targets(origin@, nodes, order.skip(1).take(i as int)));
            }
            i = i + 1;
        }
        assert(order.skip(1).take(order.len() - 1) =~= order.skip(1));
        let ghost rest = node_targets(origin@, nodes, order.skip(1));
        if policy.fallback_to_origin {
            fallbacks.push(origin.clone());
            assert(endpoint_views(fallbacks@) =~= rest.push(origin@));
        }
        let mut rewrite: Vec<(String, String)> = Vec::new();
        rewrite.push(("x-origin-host".to_owned(), origin.host().to_owned()));
        let d = CdnDecision {
            selected,
            node_name: Some(self.nodes[first].name.clone()),
            fallbacks,
            rewrite_headers: rewrite,
        };
        assert(d@.rewrite_headers =~= seq![("x-origin-host"@, origin@.host)]);
        Ok(d)
    }
}

/// The route order is a non-empty list of node positions when some node is healthy.
proof fn route_order_bounds(nodes: Seq<EdgeNode>, tags: Seq<Seq<char>>, strategy: CdnStrategy, region: Option<Seq<char>>, sequence: usize)
    requires
        healthy_order(nodes).len() > 0,
    ensures
        route_order(nodes, tags, strategy, region, sequence).len() > 0,
        forall|k: int| 0 <= k < route_order(nodes, tags, strategy, region, sequence).len()
            ==> route_order(nodes, tags, strategy, region, sequence)[k] < nodes.len(),
{
    let n = nodes.len();
    let all = positions(n);
    let h = healthy_order(nodes);
    crate::seqs::lemma_keep_members(all, healthy_node(nodes));
    assert forall|k: int| 0 <= k < h.len() implies h[k] < n by {
        assert(all.contains(h[k]));
    }
    let c = tagged_order(nodes, tags);
    if tags.len() > 0 {
        lemma_split_bounds(h, tagged_node(nodes, tags), n);
    }
    assert(c.len() == h.len());
    assert(forall|k: int| 0 <= k < c.len() ==> c[k] < n);
    match strategy {
        CdnStrategy::RegionAffinity => {
            match region {
                Some(r) => {
                    lemma_split_bounds(c, regional_node(nodes, r), n);
                },
                None => {},
            }
        },
        CdnStrategy::Weighted => {
            let w = node_weight(nodes);
            let sorted = weight_band(c, w, 0, 65535);
            assert forall|k: int| 0 <= k < c.len() implies 0 <= w(#[trigger] c[k]) <= 65535 by {}
            lemma_band_length(c, w, 0, 65535);
            crate::seqs::lemma_band_members(c, w, 0, 65535);
            let k = (sequence as int) % (sorted.len() as int);
            let rot = crate::seqs::rotated(sorted, k);
            assert forall|j: int| 0 <= j < rot.len() implies rot[j] < n by {
                if j < sorted.len() - k {
                    assert(rot[j] == sorted[j + k]);
                    assert(c.contains(sorted[j + k]));
                } else {
                    assert(rot[j] == sorted[j - (sorted.len() - k)]);
                    assert(c.contains(sorted[j - (sorted.len() - k)]));
                }
            }
        },
        CdnStrategy::Disabled => {},
    }
}

} // verus!

verus! {

proof fn lemma_occurrences_positions(n: nat, i: usize)
    requires
        n <= usize::MAX + 1,
    ensures
        occurrences(positions(n), i) == if (i as int) < n { 1nat } else { 0nat },
    decreases n,
{
    if n > 0 {
        assert(positions(n).drop_last() =~= positions((n - 1) as nat));
        lemma_occurrences_positions((n - 1) as nat, i);
    }
}

/// Weighted routing tries every healthy node exactly once, and no other node:
/// weights and route tags only decide the order.
pub proof fn lemma_weighted_visits_each_healthy_node(
    nodes: Seq<EdgeNode>,
    tags: Seq<Seq<char>>,
    region: Option<Seq<char>>,
    sequence: usize,
    i: usize,
)
    requires
        nodes.len() <= usize::MAX,
        exists|j: int| 0 <= j < nodes.len() && #[trigger] nodes[j].healthy,
    ensures
        occurrences(route_order(nodes, tags, CdnStrategy::Weighted, region, sequence), i)
            == if (i as int) < nodes.len() && nodes[i as int].healthy { 1nat } else { 0nat },
{
    let j = choose|j: int| 0 <= j < nodes.len() && #[trigger] nodes[j].healthy;
    let h = healthy_order(nodes);
    let c = tagged_order(nodes, tags);
    let w = node_weight(nodes);
    let sorted = weight_band(c, w, 0, 65535);
    assert forall|x: usize| #[trigger] occurrences(sorted, x) == if (x as int) < nodes.len() && nodes[x as int].healthy { 1nat } else { 0nat } by {
        lemma_occurrences_positions(nodes.len(), x);
        lemma_occurrences_keep(positions(nodes.len()), healthy_node(nodes), x);
        if tags.len() > 0 {
            lemma_occurrences_split(h, tagged_node(nodes, tags), x);
        }
        lemma_occurrences_band(c, w, 0, 65535, x);
    }
    let ju = j as usize;
    assert(occurrences(sorted, ju) == 1);
    lemma_occurrences_len(sorted, ju);
    let k = (sequence as int) % (sorted.len() as int);
    lemma_occurrences_rotated(sorted, k, i);
}

} // verus!
