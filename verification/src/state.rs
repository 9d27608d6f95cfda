//! The shared network state: the node registry, the ASN and geo enrichment
//! indices, and their reverse indices.
//!
//! One exclusive lock (held by the embedding process) guards the aggregate;
//! the library's mutators each apply a single delta.  The aggregate keeps
//! its indices consistent: every reverse-index entry referencing an IP or a
//! node has a corresponding primary record.

use vstd::prelude::*;
use crate::text::{bytes_eq, Text};

verus! {

/// An autonomous-system record.
#[derive(Debug)]
pub struct ASN {
    pub asn: Text,
    pub country: Text,
    pub net: Text,
    pub desc: Text,
    /// Epoch seconds.
    pub last_updated: u64,
}

/// The mathematical image of an [`ASN`].
pub struct ASNV {
    pub asn: Seq<u8>,
    pub country: Seq<u8>,
    pub net: Seq<u8>,
    pub desc: Seq<u8>,
    pub last_updated: u64,
}

impl View for ASN {
    type V = ASNV;

    open spec fn view(&self) -> ASNV {
        ASNV {
            asn: self.asn@,
            country: self.country@,
            net: self.net@,
            desc: self.desc@,
            last_updated: self.last_updated,
        }
    }
}

/// Which autonomous system an IP belongs to.
#[derive(Debug)]
pub struct IpAsnMapping {
    pub asn: Text,
    pub range: Text,
    pub country: Text,
    pub network: Text,
    /// Epoch seconds.
    pub last_updated: u64,
}

/// The mathematical image of an [`IpAsnMapping`].
pub struct IpAsnV {
    pub asn: Seq<u8>,
    pub range: Seq<u8>,
    pub country: Seq<u8>,
    pub network: Seq<u8>,
    pub last_updated: u64,
}

impl View for IpAsnMapping {
    type V = IpAsnV;

    open spec fn view(&self) -> IpAsnV {
        IpAsnV {
            asn: self.asn@,
            range: self.range@,
            country: self.country@,
            network: self.network@,
            last_updated: self.last_updated,
        }
    }
}

/// A city from the geo database.
#[derive(Debug)]
pub struct GeoCity {
    pub geoname_id: u32,
    pub name: Option<Text>,
    pub country: u32,
    pub continent: u32,
    /// Epoch seconds.
    pub last_updated: u64,
}

/// The mathematical image of a [`GeoCity`].
pub struct GeoCityV {
    pub geoname_id: u32,
    pub name: Option<Seq<u8>>,
    pub country: u32,
    pub continent: u32,
    pub last_updated: u64,
}

impl View for GeoCity {
    type V = GeoCityV;

    open spec fn view(&self) -> GeoCityV {
        GeoCityV {
            geoname_id: self.geoname_id,
            name: match self.name {
                Some(ref t) => Some(t@),
                None => None,
            },
            country: self.country,
            continent: self.continent,
            last_updated: self.last_updated,
        }
    }
}

/// A country from the geo database.
#[derive(Debug)]
pub struct GeoCountry {
    pub geoname_id: u32,
    pub name: Option<Text>,
    pub is_in_european_union: Option<bool>,
    pub iso_code: Option<Text>,
    /// Epoch seconds.
    pub last_updated: u64,
}

/// The mathematical image of a [`GeoCountry`].
pub struct GeoCountryV {
    pub geoname_id: u32,
    pub name: Option<Seq<u8>>,
    pub is_in_european_union: Option<bool>,
    pub iso_code: Option<Seq<u8>>,
    pub last_updated: u64,
}

impl View for GeoCountry {
    type V = GeoCountryV;

    open spec fn view(&self) -> GeoCountryV {
        GeoCountryV {
            geoname_id: self.geoname_id,
            name: match self.name {
                Some(ref t) => Some(t@),
                None => None,
            },
            is_in_european_union: self.is_in_european_union,
            iso_code: match self.iso_code {
                Some(ref t) => Some(t@),
                None => None,
            },
            last_updated: self.last_updated,
        }
    }
}

/// A continent from the geo database.
#[derive(Debug)]
pub struct GeoContinent {
    pub geoname_id: u32,
    pub name: Option<Text>,
    pub code: Option<Text>,
    /// Epoch seconds.
    pub last_updated: u64,
}

/// The mathematical image of a [`GeoContinent`].
pub struct GeoContinentV {
    pub geoname_id: u32,
    pub name: Option<Seq<u8>>,
    pub code: Option<Seq<u8>>,
    pub last_updated: u64,
}

impl View for GeoContinent {
    type V = GeoContinentV;

    open spec fn view(&self) -> GeoContinentV {
        GeoContinentV {
            geoname_id: self.geoname_id,
            name: match self.name {
                Some(ref t) => Some(t@),
                None => None,
            },
            code: match self.code {
                Some(ref t) => Some(t@),
                None => None,
            },
            last_updated: self.last_updated,
        }
    }
}

/// One known node: its identity, address and port.
#[derive(Debug)]
pub struct NodeAddr {
    pub id: Text,
    pub ip: Text,
    pub port: u64,
}

/// The mathematical image of a [`NodeAddr`].
pub struct NodeAddrV {
    pub id: Seq<u8>,
    pub ip: Seq<u8>,
    pub port: u64,
}

impl View for NodeAddr {
    type V = NodeAddrV;

    open spec fn view(&self) -> NodeAddrV {
        NodeAddrV { id: self.id@, ip: self.ip@, port: self.port }
    }
}

impl Clone for NodeAddr {
    /// A clone names the same node.
    fn clone(&self) -> (r: Self)
        ensures
            r@ == self@,
    {
        NodeAddr { id: self.id.clone(), ip: self.ip.clone(), port: self.port }
    }
}

/// Per-validator liveness statistics.
#[derive(Clone, Debug)]
pub struct ValidatorStat {
    pub validator_address: String,
    pub commit_index: usize,
}

/// Index of the first entry whose key bytes equal `k`.
pub open spec fn tkey_idx<V>(m: Seq<(Text, V)>, k: Seq<u8>) -> int
    decreases m.len(),
{
    if m.len() == 0 {
        -1
    } else if m[0].0@ == k {
        0
    } else {
        let r = tkey_idx(m.skip(1), k);
        if r < 0 {
            -1
        } else {
            r + 1
        }
    }
}

/// Whether some entry has this key.
pub open spec fn tmap_has<V>(m: Seq<(Text, V)>, k: Seq<u8>) -> bool {
    tkey_idx(m, k) >= 0
}

/// The value stored under this key.
pub open spec fn tmap_val<V>(m: Seq<(Text, V)>, k: Seq<u8>) -> V
    recommends
        tmap_has(m, k),
{
    m[tkey_idx(m, k)].1
}

/// No two entries share key bytes.
pub open spec fn tkeys_unique<V>(m: Seq<(Text, V)>) -> bool {
    forall|i: int, j: int| 0 <= i < j < m.len() ==> (#[trigger] m[i]).0@ != (#[trigger] m[j]).0@
}

/// A non-negative `tkey_idx` points at the first entry with the key.
pub proof fn lemma_tkey_idx_props<V>(m: Seq<(Text, V)>, k: Seq<u8>)
    ensures
        tkey_idx(m, k) >= 0 ==> 0 <= tkey_idx(m, k) < m.len() && m[tkey_idx(m, k)].0@ == k,
        tkey_idx(m, k) < 0 ==> forall|t: int| 0 <= t < m.len() ==> (#[trigger] m[t]).0@ != k,
    decreases m.len(),
{
    if m.len() == 0 {
    } else if m[0].0@ == k {
    } else {
        lemma_tkey_idx_props(m.skip(1), k);
        let r = tkey_idx(m.skip(1), k);
        if r >= 0 {
            assert(m[r + 1] == m.skip(1)[r]);
        } else {
            assert forall|t: int| 0 <= t < m.len() implies (#[trigger] m[t]).0@ != k by {
                if t > 0 {
                    assert(m[t] == m.skip(1)[t - 1]);
                }
            }
        }
    }
}

/// Find the entry whose key bytes equal `k`.
pub fn tfind_key<V>(m: &Vec<(Text, V)>, k: &Text) -> (r: Option<usize>)
    ensures
        match r {
            Some(i) => i < m@.len() && m@[i as int].0@ == k@ && tkey_idx(m@, k@) >= 0 && tkey_idx(
                m@,
                k@,
            ) == i,
            None => tkey_idx(m@, k@) < 0,
        },
{
    let mut i: usize = 0;
    while i < m.len()
        invariant
            i <= m@.len(),
            forall|t: int| 0 <= t < i ==> (#[trigger] m@[t]).0@ != k@,
        decreases m@.len() - i,
    {
        if bytes_eq(&m[i].0.bytes, &k.bytes) {
            proof {
                lemma_tkey_idx_first(m@, k@, i as int);
            }
            return Some(i);
        }
        i = i + 1;
    }
    proof {
        lemma_tkey_idx_none(m@, k@);
    }
    None
}

proof fn lemma_tkey_idx_first<V>(m: Seq<(Text, V)>, k: Seq<u8>, i: int)
    requires
        0 <= i < m.len(),
        m[i].0@ == k,
        forall|t: int| 0 <= t < i ==> (#[trigger] m[t]).0@ != k,
    ensures
        tkey_idx(m, k) == i,
    decreases i,
{
    if i > 0 {
        assert(forall|t: int| 0 <= t < i - 1 ==> m.skip(1)[t] == m[t + 1]);
        assert(m.skip(1)[i - 1] == m[i]);
        lemma_tkey_idx_first(m.skip(1), k, i - 1);
    }
}

proof fn lemma_tkey_idx_none<V>(m: Seq<(Text, V)>, k: Seq<u8>)
    requires
        forall|t: int| 0 <= t < m.len() ==> (#[trigger] m[t]).0@ != k,
    ensures
        tkey_idx(m, k) < 0,
    decreases m.len(),
{
    if m.len() > 0 {
        assert(forall|t: int| 0 <= t < m.skip(1).len() ==> m.skip(1)[t] == m[t + 1]);
        lemma_tkey_idx_none(m.skip(1), k);
    }
}

/// Whether some text in the list has these bytes.
pub open spec fn tlist_has(s: Seq<Text>, x: Seq<u8>) -> bool {
    exists|i: int| 0 <= i < s.len() && (#[trigger] s[i])@ == x
}

/// Insert text into a set-like list, if not present.
pub fn tlist_insert(v: &mut Vec<Text>, t: Text)
    ensures
        tlist_has(old(v)@, t@) ==> final(v)@ == old(v)@,
        !tlist_has(old(v)@, t@) ==> final(v)@ == old(v)@.push(t),
        tlist_has(final(v)@, t@),
{
    let mut i: usize = 0;
    while i < v.len()
        invariant
            i <= v@.len(),
            v@ == old(v)@,
            forall|s: int| 0 <= s < i ==> (#[trigger] v@[s])@ != t@,
        decreases v@.len() - i,
    {
        if bytes_eq(&v[i].bytes, &t.bytes) {
            assert(tlist_has(v@, t@));
            return ;
        }
        i = i + 1;
    }
    assert(!tlist_has(v@, t@));
    v.push(t);
    assert(final(v)@[old(v)@.len() as int]@ == t@);
}

/// Remove every text with these bytes from a list.
pub fn tlist_remove(v: &mut Vec<Text>, t: &Text)
    ensures
        final(v)@ == old(v)@.filter(|x: Text| x@ != t@),
{
    let ghost orig = old(v)@;
    let orig_len = v.len();
    let mut out: Vec<Text> = Vec::new();
    let mut i: usize = 0;
    proof {
        reveal(Seq::filter);
        assert(out@ =~= orig.take(0).filter(|x: Text| x@ != t@));
        assert(v@ =~= orig.skip(0));
    }
    while v.len() > 0
        invariant
            orig.len() == orig_len,
            i <= orig.len(),
            i + v@.len() == orig.len(),
            v@ == orig.skip(i as int),
            out@ == orig.take(i as int).filter(|x: Text| x@ != t@),
        decreases v@.len(),
    {
        proof {
            reveal(Seq::filter);
            assert(orig.take(i as int + 1).drop_last() =~= orig.take(i as int));
            assert(orig.take(i as int + 1).last() == orig[i as int]);
            assert(orig.skip(i as int).remove(0) =~= orig.skip(i as int + 1));
        }
        let x = v.remove(0);
        proof {
            assert(x == orig[i as int]);
        }
        if !bytes_eq(&x.bytes, &t.bytes) {
            out.push(x);
        }
        i = i + 1;
    }
    proof {
        assert(orig.take(orig.len() as int) =~= orig);
    }
    *v = out;
}

/// Whether some node in the list has this image.
pub open spec fn nlist_has(s: Seq<NodeAddr>, x: NodeAddrV) -> bool {
    exists|i: int| 0 <= i < s.len() && (#[trigger] s[i])@ == x
}

/// The shared network state.
pub struct State {
    /// When the last checkpoint was taken, in epoch seconds.
    pub last_saved: u64,
    /// Primary node registry, keyed by the node's address string.
    pub nodes: Vec<(Text, NodeAddr)>,
    /// Reverse index: pairs of an IP and a node seen at it.
    pub ip_ip_addr: Vec<(Text, NodeAddr)>,
    /// Reverse index: pairs of a node identity and one of its addresses.
    pub id_ip_addr: Vec<(Text, NodeAddr)>,
    /// Keys newly added to `nodes`.
    pub new_nodes: Vec<Text>,
    /// IPs waiting for ASN enrichment.
    pub new_ips_bgp: Vec<Text>,
    /// IPs waiting for geo enrichment.
    pub new_ips_geo: Vec<Text>,
    /// IP to its ASN mapping.
    pub ip_asn: Vec<(Text, IpAsnMapping)>,
    /// Reverse index: pairs of an ASN and an IP in it.
    pub asn_ip: Vec<(Text, Text)>,
    /// ASN details.
    pub asn: Vec<(Text, ASN)>,
    pub geo_city: Vec<(u32, GeoCity)>,
    pub geo_country: Vec<(u32, GeoCountry)>,
    pub geo_continent: Vec<(u32, GeoContinent)>,
    pub geo_ip_city: Vec<(Text, u32)>,
    pub geo_ip_country: Vec<(Text, u32)>,
    pub geo_ip_continent: Vec<(Text, u32)>,
    /// Reverse index: pairs of a city and an IP located there.
    pub geo_city_ip: Vec<(u32, Text)>,
    pub geo_country_ip: Vec<(u32, Text)>,
    pub geo_continent_ip: Vec<(u32, Text)>,
}

/// No two entries share a numeric key.
pub open spec fn gkeys_unique<V>(m: Seq<(u32, V)>) -> bool {
    forall|i: int, j: int| 0 <= i < j < m.len() ==> (#[trigger] m[i]).0 != (#[trigger] m[j]).0
}

impl State {
    /// Keys of every primary index are unique, and no reverse-index entry
    /// dangles: every IP listed under an ASN has a primary ASN mapping, and
    /// every node listed under an IP or identity is in the node registry.
    pub open spec fn wf(&self) -> bool {
        &&& tkeys_unique(self.nodes@)
        &&& tkeys_unique(self.ip_asn@)
        &&& tkeys_unique(self.asn@)
        &&& gkeys_unique(self.geo_city@)
        &&& gkeys_unique(self.geo_country@)
        &&& gkeys_unique(self.geo_continent@)
        &&& tkeys_unique(self.geo_ip_city@)
        &&& tkeys_unique(self.geo_ip_country@)
        &&& tkeys_unique(self.geo_ip_continent@)
        &&& forall|a: int|
            0 <= a < self.asn_ip@.len() ==> tmap_has(
                self.ip_asn@,
                (#[trigger] self.asn_ip@[a]).1@,
            )
        &&& forall|a: int|
            0 <= a < self.ip_ip_addr@.len() ==> nlist_has(
                node_values(self.nodes@),
                (#[trigger] self.ip_ip_addr@[a]).1@,
            )
        &&& forall|a: int|
            0 <= a < self.id_ip_addr@.len() ==> nlist_has(
                node_values(self.nodes@),
                (#[trigger] self.id_ip_addr@[a]).1@,
            )
    }

    /// An empty, consistent state.
    pub fn new() -> (r: State)
        ensures
            r.wf(),
            r.last_saved == 0,
            r.nodes@.len() == 0,
            r.ip_ip_addr@.len() == 0,
            r.id_ip_addr@.len() == 0,
            r.new_nodes@.len() == 0,
            r.new_ips_bgp@.len() == 0,
            r.new_ips_geo@.len() == 0,
            r.ip_asn@.len() == 0,
            r.asn_ip@.len() == 0,
            r.asn@.len() == 0,
            r.geo_city@.len() == 0,
            r.geo_country@.len() == 0,
            r.geo_continent@.len() == 0,
            r.geo_ip_city@.len() == 0,
            r.geo_ip_country@.len() == 0,
            r.geo_ip_continent@.len() == 0,
            r.geo_city_ip@.len() == 0,
            r.geo_country_ip@.len() == 0,
            r.geo_continent_ip@.len() == 0,
    {
        State {
            last_saved: 0,
            nodes: Vec::new(),
            ip_ip_addr: Vec::new(),
            id_ip_addr: Vec::new(),
            new_nodes: Vec::new(),
            new_ips_bgp: Vec::new(),
            new_ips_geo: Vec::new(),
            ip_asn: Vec::new(),
            asn_ip: Vec::new(),
            asn: Vec::new(),
            geo_city: Vec::new(),
            geo_country: Vec::new(),
            geo_continent: Vec::new(),
            geo_ip_city: Vec::new(),
            geo_ip_country: Vec::new(),
            geo_ip_continent: Vec::new(),
            geo_city_ip: Vec::new(),
            geo_country_ip: Vec::new(),
            geo_continent_ip: Vec::new(),
        }
    }
}

/// The images of the node registry's values.
pub open spec fn node_values(m: Seq<(Text, NodeAddr)>) -> Seq<NodeAddr> {
    m.map_values(|e: (Text, NodeAddr)| e.1)
}


/// The mathematical image of the whole state.
#[verifier::ext_equal]
pub struct StateV {
    pub last_saved: u64,
    pub nodes: Seq<(Seq<u8>, NodeAddrV)>,
    pub ip_ip_addr: Seq<(Seq<u8>, NodeAddrV)>,
    pub id_ip_addr: Seq<(Seq<u8>, NodeAddrV)>,
    pub new_nodes: Seq<Seq<u8>>,
    pub new_ips_bgp: Seq<Seq<u8>>,
    pub new_ips_geo: Seq<Seq<u8>>,
    pub ip_asn: Seq<(Seq<u8>, IpAsnV)>,
    pub asn_ip: Seq<(Seq<u8>, Seq<u8>)>,
    pub asn: Seq<(Seq<u8>, ASNV)>,
    pub geo_city: Seq<(u32, GeoCityV)>,
    pub geo_country: Seq<(u32, GeoCountryV)>,
    pub geo_continent: Seq<(u32, GeoContinentV)>,
    pub geo_ip_city: Seq<(Seq<u8>, u32)>,
    pub geo_ip_country: Seq<(Seq<u8>, u32)>,
    pub geo_ip_continent: Seq<(Seq<u8>, u32)>,
    pub geo_city_ip: Seq<(u32, Seq<u8>)>,
    pub geo_country_ip: Seq<(u32, Seq<u8>)>,
    pub geo_continent_ip: Seq<(u32, Seq<u8>)>,
}

impl View for State {
    type V = StateV;

    open spec fn view(&self) -> StateV {
        StateV {
            last_saved: self.last_saved,
            nodes: self.nodes@.map_values(|e: (Text, NodeAddr)| (e.0@, e.1@)),
            ip_ip_addr: self.ip_ip_addr@.map_values(|e: (Text, NodeAddr)| (e.0@, e.1@)),
            id_ip_addr: self.id_ip_addr@.map_values(|e: (Text, NodeAddr)| (e.0@, e.1@)),
            new_nodes: self.new_nodes@.map_values(|t: Text| t@),
            new_ips_bgp: self.new_ips_bgp@.map_values(|t: Text| t@),
            new_ips_geo: self.new_ips_geo@.map_values(|t: Text| t@),
            ip_asn: self.ip_asn@.map_values(|e: (Text, IpAsnMapping)| (e.0@, e.1@)),
            asn_ip: self.asn_ip@.map_values(|e: (Text, Text)| (e.0@, e.1@)),
            asn: self.asn@.map_values(|e: (Text, ASN)| (e.0@, e.1@)),
            geo_city: self.geo_city@.map_values(|e: (u32, GeoCity)| (e.0, e.1@)),
            geo_country: self.geo_country@.map_values(|e: (u32, GeoCountry)| (e.0, e.1@)),
            geo_continent: self.geo_continent@.map_values(|e: (u32, GeoContinent)| (e.0, e.1@)),
            geo_ip_city: self.geo_ip_city@.map_values(|e: (Text, u32)| (e.0@, e.1)),
            geo_ip_country: self.geo_ip_country@.map_values(|e: (Text, u32)| (e.0@, e.1)),
            geo_ip_continent: self.geo_ip_continent@.map_values(|e: (Text, u32)| (e.0@, e.1)),
            geo_city_ip: self.geo_city_ip@.map_values(|e: (u32, Text)| (e.0, e.1@)),
            geo_country_ip: self.geo_country_ip@.map_values(|e: (u32, Text)| (e.0, e.1@)),
            geo_continent_ip: self.geo_continent_ip@.map_values(|e: (u32, Text)| (e.0, e.1@)),
        }
    }
}


/// Store `v` under `k` in a byte-keyed map: the first entry with that key
/// is replaced, or a new entry is appended.
pub open spec fn tupserted<V>(m: Seq<(Text, V)>, k: Seq<u8>, pair: (Text, V)) -> Seq<(Text, V)> {
    if tmap_has(m, k) {
        m.update(tkey_idx(m, k), pair)
    } else {
        m.push(pair)
    }
}

/// Whether some reverse pair with these images is listed.
pub open spec fn pair_has<V>(m: Seq<(Text, V)>, k: Seq<u8>, v: V) -> bool {
    exists|i: int| 0 <= i < m.len() && (#[trigger] m[i]).0@ == k && m[i].1 == v
}

impl State {
    /// Record one address-book entry under its address string: an unseen
    /// node enters the registry, is queued for both enrichment passes, and
    /// is reverse-indexed by identity and by IP; a known key changes
    /// nothing.
    pub fn record_node(&mut self, key: Text, addr: NodeAddr)
        requires
            old(self).wf(),
        ensures
            final(self).wf(),
            final(self).last_saved == old(self).last_saved,
            final(self).ip_asn@ == old(self).ip_asn@,
            final(self).asn_ip@ == old(self).asn_ip@,
            final(self).asn@ == old(self).asn@,
            final(self).new_ips_bgp@.len() >= old(self).new_ips_bgp@.len(),
            if tmap_has(old(self).nodes@, key@) {
                &&& final(self).nodes@ == old(self).nodes@
                &&& final(self).new_nodes@ == old(self).new_nodes@
                &&& final(self).ip_ip_addr@ == old(self).ip_ip_addr@
                &&& final(self).id_ip_addr@ == old(self).id_ip_addr@
                &&& final(self).new_ips_bgp@ == old(self).new_ips_bgp@
                &&& final(self).new_ips_geo@ == old(self).new_ips_geo@
            } else {
                &&& final(self).nodes@.len() == old(self).nodes@.len() + 1
                &&& final(self).nodes@.last().0@ == key@
                &&& final(self).nodes@.last().1@ == addr@
                &&& tlist_has(final(self).new_nodes@, key@)
                &&& tlist_has(final(self).new_ips_bgp@, addr.ip@)
                &&& tlist_has(final(self).new_ips_geo@, addr.ip@)
                &&& pair_has_view(final(self).ip_ip_addr@, addr.ip@, addr@)
                &&& pair_has_view(final(self).id_ip_addr@, addr.id@, addr@)
            },
    {
        match tfind_key(&self.nodes, &key) {
            Some(_) => {
                proof {
                    lemma_tkey_idx_props(self.nodes@, key@);
                }
            },
            None => {
                let ip = addr.ip.clone();
                let id = addr.id.clone();
                tlist_insert(&mut self.new_nodes, key.clone());
                tlist_insert(&mut self.new_ips_bgp, addr.ip.clone());
                tlist_insert(&mut self.new_ips_geo, addr.ip.clone());
                let stored = addr.clone();
                self.nodes.push((key, addr));
                let ghost nodesv = self.nodes@;
                proof {
                    assert forall|a: int, b: int|
                        0 <= a < b < nodesv.len() implies (#[trigger] nodesv[a]).0@ != (
                    #[trigger] nodesv[b]).0@ by {
                        if b < nodesv.len() - 1 {
                            assert(old(self).nodes@[a].0@ != old(self).nodes@[b].0@);
                        } else {
                            lemma_tkey_idx_props(old(self).nodes@, nodesv[b].0@);
                        }
                    }
                }
                if !node_pair_present(&self.ip_ip_addr, &ip, &stored) {
                    let pair_addr = stored.clone();
                    self.ip_ip_addr.push((ip, pair_addr));
                    proof {
                        assert((self.ip_ip_addr@.last()).0@ == addr.ip@);
                        assert((self.ip_ip_addr@.last()).1@ == addr@);
                        assert(pair_has_view(self.ip_ip_addr@, addr.ip@, addr@));
                    }
                }
                proof {
                    assert(pair_has_view(self.ip_ip_addr@, addr.ip@, addr@));
                }
                if !node_pair_present(&self.id_ip_addr, &id, &stored) {
                    self.id_ip_addr.push((id, stored));
                    proof {
                        assert((self.id_ip_addr@.last()).0@ == addr.id@);
                        assert((self.id_ip_addr@.last()).1@ == addr@);
                        assert(pair_has_view(self.id_ip_addr@, addr.id@, addr@));
                    }
                }
                proof {
                    assert(pair_has_view(self.id_ip_addr@, addr.id@, addr@));
                }
                proof {
                    assert(nlist_has(node_values(self.nodes@), self.nodes@.last().1@)) by {
                        assert(node_values(self.nodes@)[self.nodes@.len() - 1]@
                            == self.nodes@.last().1@);
                    }
                    assert forall|a: int|
                        0 <= a < self.ip_ip_addr@.len() implies nlist_has(
                        node_values(self.nodes@),
                        (#[trigger] self.ip_ip_addr@[a]).1@,
                    ) by {
                        if a < old(self).ip_ip_addr@.len() {
                            lemma_node_values_grow(old(self).nodes@, self.nodes@,
                                old(self).ip_ip_addr@[a].1@);
                        }
                    }
                    assert forall|a: int|
                        0 <= a < self.id_ip_addr@.len() implies nlist_has(
                        node_values(self.nodes@),
                        (#[trigger] self.id_ip_addr@[a]).1@,
                    ) by {
                        if a < old(self).id_ip_addr@.len() {
                            lemma_node_values_grow(old(self).nodes@, self.nodes@,
                                old(self).id_ip_addr@[a].1@);
                        }
                    }
                    assert forall|a: int|
                        0 <= a < self.asn_ip@.len() implies tmap_has(
                        self.ip_asn@,
                        (#[trigger] self.asn_ip@[a]).1@,
                    ) by {
                        assert(tmap_has(old(self).ip_asn@, old(self).asn_ip@[a].1@));
                    }
                }
            },
        }
    }

    /// Record an ASN mapping for an IP: the mapping is stored (overwriting
    /// any earlier one), the IP is listed under its ASN, and the IP leaves
    /// the enrichment queue.
    pub fn record_ip_asn(&mut self, ip: Text, det: IpAsnMapping)
        requires
            old(self).wf(),
        ensures
            final(self).wf(),
            final(self).nodes@ == old(self).nodes@,
            final(self).ip_ip_addr@ == old(self).ip_ip_addr@,
            final(self).id_ip_addr@ == old(self).id_ip_addr@,
            final(self).asn@ == old(self).asn@,
            tmap_has(final(self).ip_asn@, ip@),
            tmap_val(final(self).ip_asn@, ip@)@ == det@,
            pair_has_view_t(final(self).asn_ip@, det.asn@, ip@),
            final(self).new_ips_bgp@ == old(self).new_ips_bgp@.filter(|x: Text| x@ != ip@),
    {
        let ghost ipasn0 = self.ip_asn@;
        let asn_key = det.asn.clone();
        let ip_for_pair = ip.clone();
        let ip_for_removal = ip.clone();
        match tfind_key(&self.ip_asn, &ip) {
            Some(i) => {
                proof {
                    lemma_tkey_idx_props(ipasn0, ip@);
                }
                self.ip_asn[i] = (ip, det);
                proof {
                    assert forall|a: int, b: int|
                        0 <= a < b < self.ip_asn@.len() implies (#[trigger] self.ip_asn@[a]).0@
                        != (#[trigger] self.ip_asn@[b]).0@ by {
                        assert(ipasn0[a].0@ != ipasn0[b].0@);
                    }
                    lemma_tkey_idx_first(self.ip_asn@, ip@, tkey_idx(ipasn0, ip@));
                }
            },
            None => {
                self.ip_asn.push((ip, det));
                proof {
                    lemma_tkey_idx_props(ipasn0, self.ip_asn@.last().0@);
                    assert forall|a: int, b: int|
                        0 <= a < b < self.ip_asn@.len() implies (#[trigger] self.ip_asn@[a]).0@
                        != (#[trigger] self.ip_asn@[b]).0@ by {
                        if b < self.ip_asn@.len() - 1 {
                            assert(ipasn0[a].0@ != ipasn0[b].0@);
                        } else {
                            lemma_tkey_idx_props(ipasn0, self.ip_asn@[b].0@);
                        }
                    }
                    lemma_tkey_idx_first(self.ip_asn@, ip@, ipasn0.len() as int);
                }
            },
        }
        proof {
            assert(tmap_val(self.ip_asn@, ip@)@ == det@);
        }
        if !text_pair_present(&self.asn_ip, &asn_key, &ip_for_pair) {
            self.asn_ip.push((asn_key, ip_for_pair));
            proof {
                assert((self.asn_ip@.last()).0@ == det.asn@);
                assert((self.asn_ip@.last()).1@ == ip@);
                assert(pair_has_view_t(self.asn_ip@, det.asn@, ip@));
            }
        }
        proof {
            assert(pair_has_view_t(self.asn_ip@, det.asn@, ip@));
        }
        tlist_remove(&mut self.new_ips_bgp, &ip_for_removal);
        proof {
            assert forall|a: int|
                0 <= a < self.asn_ip@.len() implies tmap_has(
                self.ip_asn@,
                (#[trigger] self.asn_ip@[a]).1@,
            ) by {
                if a < old(self).asn_ip@.len() {
                    assert(tmap_has(ipasn0, old(self).asn_ip@[a].1@));
                    lemma_tkey_idx_props(ipasn0, old(self).asn_ip@[a].1@);
                    lemma_tmap_has_after(ipasn0, self.ip_asn@, old(self).asn_ip@[a].1@, ip@);
                } else {
                    assert(self.asn_ip@[a].1@ == ip@);
                }
            }
        }
    }

    /// Record the details of an ASN.
    pub fn record_asn(&mut self, asn: Text, det: ASN)
        requires
            old(self).wf(),
        ensures
            final(self).wf(),
            final(self).nodes@ == old(self).nodes@,
            final(self).ip_asn@ == old(self).ip_asn@,
            final(self).asn_ip@ == old(self).asn_ip@,
            final(self).ip_ip_addr@ == old(self).ip_ip_addr@,
            final(self).id_ip_addr@ == old(self).id_ip_addr@,
            tmap_has(final(self).asn@, asn@),
            tmap_val(final(self).asn@, asn@)@ == det@,
    {
        let ghost asn0 = self.asn@;
        match tfind_key(&self.asn, &asn) {
            Some(i) => {
                proof {
                    lemma_tkey_idx_props(asn0, asn@);
                }
                self.asn[i] = (asn, det);
                proof {
                    assert forall|a: int, b: int|
                        0 <= a < b < self.asn@.len() implies (#[trigger] self.asn@[a]).0@ != (
                    #[trigger] self.asn@[b]).0@ by {
                        assert(asn0[a].0@ != asn0[b].0@);
                    }
                    lemma_tkey_idx_first(self.asn@, asn@, tkey_idx(asn0, asn@));
                }
            },
            None => {
                self.asn.push((asn, det));
                proof {
                    lemma_tkey_idx_props(asn0, self.asn@.last().0@);
                    assert forall|a: int, b: int|
                        0 <= a < b < self.asn@.len() implies (#[trigger] self.asn@[a]).0@ != (
                    #[trigger] self.asn@[b]).0@ by {
                        if b < self.asn@.len() - 1 {
                            assert(asn0[a].0@ != asn0[b].0@);
                        } else {
                            lemma_tkey_idx_props(asn0, self.asn@[b].0@);
                        }
                    }
                    lemma_tkey_idx_first(self.asn@, asn@, asn0.len() as int);
                }
            },
        }
    }

    /// Drop an IP from the geo enrichment queue, once its lookups are
    /// recorded.
    pub fn mark_ip_geo_done(&mut self, ip: &Text)
        requires
            old(self).wf(),
        ensures
            final(self).wf(),
            final(self).new_ips_geo@ == old(self).new_ips_geo@.filter(|x: Text| x@ != ip@),
            final(self).nodes@ == old(self).nodes@,
            final(self).ip_asn@ == old(self).ip_asn@,
            final(self).asn_ip@ == old(self).asn_ip@,
            final(self).ip_ip_addr@ == old(self).ip_ip_addr@,
            final(self).id_ip_addr@ == old(self).id_ip_addr@,
    {
        tlist_remove(&mut self.new_ips_geo, ip);
    }
}

/// Whether some pair in a node reverse index has these images.
pub open spec fn pair_has_view(m: Seq<(Text, NodeAddr)>, k: Seq<u8>, v: NodeAddrV) -> bool {
    exists|i: int| 0 <= i < m.len() && (#[trigger] m[i]).0@ == k && m[i].1@ == v
}

/// Whether some pair in a byte-string reverse index has these images.
pub open spec fn pair_has_view_t(m: Seq<(Text, Text)>, k: Seq<u8>, v: Seq<u8>) -> bool {
    exists|i: int| 0 <= i < m.len() && (#[trigger] m[i]).0@ == k && m[i].1@ == v
}

/// A node listed in the old registry's values is still listed after the
/// registry grows.
proof fn lemma_node_values_grow(
    old_nodes: Seq<(Text, NodeAddr)>,
    new_nodes: Seq<(Text, NodeAddr)>,
    x: NodeAddrV,
)
    requires
        nlist_has(node_values(old_nodes), x),
        old_nodes.len() <= new_nodes.len(),
        forall|i: int| 0 <= i < old_nodes.len() ==> #[trigger] new_nodes[i] == old_nodes[i],
    ensures
        nlist_has(node_values(new_nodes), x),
{
    let i = choose|i: int|
        0 <= i < node_values(old_nodes).len() && (#[trigger] node_values(old_nodes)[i])@ == x;
    assert(node_values(new_nodes)[i]@ == x);
}

/// A key present before an upsert of another key stays present.
proof fn lemma_tmap_has_after(
    m0: Seq<(Text, IpAsnMapping)>,
    m1: Seq<(Text, IpAsnMapping)>,
    k: Seq<u8>,
    touched: Seq<u8>,
)
    requires
        tmap_has(m0, k),
        m0.len() <= m1.len(),
        forall|i: int|
            0 <= i < m0.len() ==> (#[trigger] m1[i]).0@ == m0[i].0@ || m0[i].0@ == touched,
        tmap_has(m1, touched),
    ensures
        tmap_has(m1, k),
{
    lemma_tkey_idx_props(m0, k);
    let i = tkey_idx(m0, k);
    if m0[i].0@ == touched {
        lemma_tkey_idx_props(m1, touched);
    } else {
        assert(m1[i].0@ == k);
        lemma_tkey_idx_first_exists(m1, k, i);
    }
}

/// Some entry with the key makes the key present.
proof fn lemma_tkey_idx_first_exists<V>(m: Seq<(Text, V)>, k: Seq<u8>, i: int)
    requires
        0 <= i < m.len(),
        m[i].0@ == k,
    ensures
        tmap_has(m, k),
    decreases i,
{
    if m[0].0@ == k {
    } else {
        assert(m.skip(1)[i - 1] == m[i]);
        lemma_tkey_idx_first_exists(m.skip(1), k, i - 1);
        lemma_tkey_idx_props(m.skip(1), k);
    }
}

/// Whether a reverse pair of an IP and a node is already listed.
fn node_pair_present(m: &Vec<(Text, NodeAddr)>, k: &Text, v: &NodeAddr) -> (r: bool)
    ensures
        r == pair_has_view(m@, k@, v@),
{
    let mut i: usize = 0;
    while i < m.len()
        invariant
            i <= m@.len(),
            forall|t: int| 0 <= t < i ==> !((#[trigger] m@[t]).0@ == k@ && m@[t].1@ == v@),
        decreases m@.len() - i,
    {
        if bytes_eq(&m[i].0.bytes, &k.bytes) && bytes_eq(&m[i].1.id.bytes, &v.id.bytes) && bytes_eq(
            &m[i].1.ip.bytes,
            &v.ip.bytes,
        ) && m[i].1.port == v.port {
            assert(pair_has_view(m@, k@, v@));
            return true;
        }
        i = i + 1;
    }
    false
}

/// Whether a reverse pair of two byte strings is already listed.
fn text_pair_present(m: &Vec<(Text, Text)>, k: &Text, v: &Text) -> (r: bool)
    ensures
        r == pair_has_view_t(m@, k@, v@),
{
    let mut i: usize = 0;
    while i < m.len()
        invariant
            i <= m@.len(),
            forall|t: int| 0 <= t < i ==> !((#[trigger] m@[t]).0@ == k@ && m@[t].1@ == v@),
        decreases m@.len() - i,
    {
        if bytes_eq(&m[i].0.bytes, &k.bytes) && bytes_eq(&m[i].1.bytes, &v.bytes) {
            assert(pair_has_view_t(m@, k@, v@));
            return true;
        }
        i = i + 1;
    }
    false
}

/// A versioned snapshot, named so old checkpoints stay readable.
pub enum StateVersion {
    StateVersion1(State),
}

} // verus!
