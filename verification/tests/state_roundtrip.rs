use constellation::state::{NodeAddr, State, StateVersion, ASN, GeoCity, IpAsnMapping};
use constellation::text::Text;

fn sample_state() -> State {
    let mut st = State::new();
    st.last_saved = 1_700_000_000;
    st.nodes.push((
        Text::from_str("id1@1.2.3.4:26656"),
        NodeAddr { id: Text::from_str("id1"), ip: Text::from_str("1.2.3.4"), port: 26656 },
    ));
    st.ip_ip_addr.push((
        Text::from_str("1.2.3.4"),
        NodeAddr { id: Text::from_str("id1"), ip: Text::from_str("1.2.3.4"), port: 26656 },
    ));
    st.new_nodes.push(Text::from_str("id1@1.2.3.4:26656"));
    st.new_ips_bgp.push(Text::from_str("1.2.3.4"));
    st.new_ips_geo.push(Text::from_str("1.2.3.4"));
    st.ip_asn.push((
        Text::from_str("1.2.3.4"),
        IpAsnMapping {
            asn: Text::from_str("64500"),
            range: Text::from_str("1.2.3.0/24"),
            country: Text::from_str("DE"),
            network: Text::from_str("example"),
            last_updated: 1_700_000_100,
        },
    ));
    st.asn_ip.push((Text::from_str("64500"), Text::from_str("1.2.3.4")));
    st.asn.push((
        Text::from_str("64500"),
        ASN {
            asn: Text::from_str("64500"),
            country: Text::from_str("DE"),
            net: Text::from_str("ripencc"),
            desc: Text::from_str("EXAMPLE-NET"),
            last_updated: 1_700_000_200,
        },
    ));
    st.geo_city.push((
        2950159,
        GeoCity {
            geoname_id: 2950159,
            name: Some(Text::from_str("Berlin")),
            country: 2921044,
            continent: 6255148,
            last_updated: 1_700_000_300,
        },
    ));
    st.geo_ip_city.push((Text::from_str("1.2.3.4"), 2950159));
    st.geo_city_ip.push((2950159, Text::from_str("1.2.3.4")));
    st
}

#[test]
fn checkpoint_round_trip_restores_equal_state() {
    let st = sample_state();
    let bytes = st.save();
    let restored = State::restore(&bytes).expect("restores");
    let StateVersion::StateVersion1(r) = restored;
    assert_eq!(r.last_saved, st.last_saved);
    assert_eq!(r.nodes.len(), 1);
    assert!(r.nodes[0].0.eq_text(&st.nodes[0].0));
    assert!(r.nodes[0].1.id.eq_text(&st.nodes[0].1.id));
    assert_eq!(r.nodes[0].1.port, 26656);
    assert_eq!(r.ip_ip_addr.len(), 1);
    assert_eq!(r.new_nodes.len(), 1);
    assert_eq!(r.new_ips_bgp.len(), 1);
    assert_eq!(r.new_ips_geo.len(), 1);
    assert!(r.ip_asn[0].1.asn.eq_text(&Text::from_str("64500")));
    assert_eq!(r.ip_asn[0].1.last_updated, 1_700_000_100);
    assert!(r.asn_ip[0].1.eq_text(&Text::from_str("1.2.3.4")));
    assert!(r.asn[0].1.desc.eq_text(&Text::from_str("EXAMPLE-NET")));
    assert_eq!(r.geo_city.len(), 1);
    assert_eq!(r.geo_city[0].0, 2950159);
    assert!(r.geo_city[0].1.name.as_ref().unwrap().eq_text(&Text::from_str("Berlin")));
    assert_eq!(r.geo_ip_city[0].1, 2950159);
    assert_eq!(r.geo_city_ip[0].0, 2950159);
}

#[test]
fn empty_state_round_trips() {
    let st = State::new();
    let bytes = st.save();
    let StateVersion::StateVersion1(r) = State::restore(&bytes).expect("restores");
    assert_eq!(r.nodes.len(), 0);
    assert_eq!(r.last_saved, 0);
}

#[test]
fn garbage_is_not_a_checkpoint() {
    assert!(State::restore(&vec![1, 2, 3]).is_none());
    // a wrong version tag is refused
    let mut bytes = sample_state().save();
    bytes[0] = 9;
    assert!(State::restore(&bytes).is_none());
    // trailing bytes are refused
    let mut bytes2 = sample_state().save();
    bytes2.push(0);
    assert!(State::restore(&bytes2).is_none());
}

#[test]
fn recording_keeps_indices_consistent() {
    let mut st = State::new();
    let addr = NodeAddr { id: Text::from_str("id9"), ip: Text::from_str("9.9.9.9"), port: 26656 };
    st.record_node(Text::from_str("id9@9.9.9.9:26656"), addr);
    assert_eq!(st.nodes.len(), 1);
    assert_eq!(st.new_nodes.len(), 1);
    assert_eq!(st.new_ips_bgp.len(), 1);
    assert_eq!(st.ip_ip_addr.len(), 1);
    assert_eq!(st.id_ip_addr.len(), 1);
    // a second record of the same key changes nothing
    let again = NodeAddr { id: Text::from_str("id9"), ip: Text::from_str("9.9.9.9"), port: 26656 };
    st.record_node(Text::from_str("id9@9.9.9.9:26656"), again);
    assert_eq!(st.nodes.len(), 1);
    assert_eq!(st.ip_ip_addr.len(), 1);
    // enrichment stores the mapping, reverse-indexes the IP and clears the
    // queue
    st.record_ip_asn(
        Text::from_str("9.9.9.9"),
        IpAsnMapping {
            asn: Text::from_str("64501"),
            range: Text::from_str("9.9.9.0/24"),
            country: Text::from_str("SE"),
            network: Text::from_str("net"),
            last_updated: 7,
        },
    );
    assert_eq!(st.ip_asn.len(), 1);
    assert_eq!(st.asn_ip.len(), 1);
    assert!(st.new_ips_bgp.is_empty());
    st.record_asn(
        Text::from_str("64501"),
        ASN {
            asn: Text::from_str("64501"),
            country: Text::from_str("SE"),
            net: Text::from_str("ripencc"),
            desc: Text::from_str("NET-9"),
            last_updated: 8,
        },
    );
    assert_eq!(st.asn.len(), 1);
    st.mark_ip_geo_done(&Text::from_str("9.9.9.9"));
    assert!(st.new_ips_geo.is_empty());
}
