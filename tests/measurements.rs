use ruuvi_exporter::measurements::{decode_message, Measurements};
use ruuvi_exporter::reading::{decode_advertisement, decode_reading, Reading, ReadingError};
use ruuvi_exporter::rw_message::{GwMessage, TagMessage};

const V5_AD: &str = "0201061BFF9904050FE0337CC4ABFC1400340024A5B6EBA544DD1992CB6021";
const E1_AD: &str = "2BFF9904E110FE408CC53D000300060009000B02560D00FFFFFFFFFFFF001EBEB8FFFFFFFFFFF6BFB2EED156";

#[test]
fn test_update_tag_with_standard_format() {
    // Standard format: ad_type 1 followed by ad_type 0xff
    let data = hex::decode(V5_AD).unwrap();
    let tag = TagMessage {
        name: "DD:19:92:CB:60:21".to_string(),
        data,
        timestamp: 1736885086,
        rssi: -50,
    };

    let mut measurements = Measurements::new();
    measurements.update_tag(tag);

    assert_eq!(measurements.tags.len(), 1);
    assert!(measurements.tags.contains_key("DD:19:92:CB:60:21"));
}

#[test]
fn test_update_tag_with_e1_format() {
    let data = hex::decode(E1_AD).unwrap();

    let tag = TagMessage {
        name: "E1:67:4C:F5:77:29".to_string(),
        data,
        timestamp: 1736885086,
        rssi: -60,
    };

    let mut measurements = Measurements::new();
    measurements.update_tag(tag);

    assert_eq!(measurements.tags.len(), 1);
    assert!(measurements.tags.contains_key("E1:67:4C:F5:77:29"));

    let tag = measurements.tags.get("E1:67:4C:F5:77:29").unwrap();
    assert!(matches!(tag.values, Reading::E1(_)));
}

#[test]
fn test_update_tag_without_manufacturer_data() {
    // Only ad_type 1, no manufacturer-specific data
    let data = hex::decode("020106").unwrap();
    let tag = TagMessage {
        name: "AA:BB:CC:DD:EE:FF".to_string(),
        data,
        timestamp: 1736885086,
        rssi: -50,
    };

    let mut measurements = Measurements::new();
    let outcome = measurements.update_tag(tag);

    assert_eq!(measurements.tags.len(), 0);
    assert!(!outcome.vendor_found);
}

#[test]
fn v5_payload_decodes_to_known_values() {
    let ad = hex::decode(V5_AD).unwrap();
    let outcome = decode_advertisement(&ad);
    assert!(outcome.vendor_found);
    match outcome.reading.unwrap() {
        Reading::V5(d) => {
            assert_eq!(d.temperature, Some(20320));
            assert_eq!(d.humidity, Some(329500));
            assert_eq!(d.pressure, Some(100347));
            assert_eq!(d.acceleration, Some((-1004, 52, 36)));
            assert_eq!(d.battery, Some(2925));
            assert_eq!(d.tx_power, Some(4));
            assert_eq!(d.movement_counter, Some(235));
            assert_eq!(d.sequence, Some(42308));
        }
        other => panic!("unexpected format {other:?}"),
    }
}

#[test]
fn later_vendor_structure_wins() {
    // Two vendor structures: the first says 20.32 °C, the second 24.3 °C.
    let first = "1BFF9904050FE0337CC4ABFC1400340024A5B6EBA544DD1992CB6021";
    let second = "1BFF99040512FC5394C37C0004FFFC040CAC364200CDCBB8334C884F";
    let ad = hex::decode(format!("020106{first}{second}")).unwrap();
    let outcome = decode_advertisement(&ad);
    match outcome.reading.unwrap() {
        Reading::V5(d) => assert_eq!(d.temperature, Some(24300)),
        other => panic!("unexpected format {other:?}"),
    }
    let ad = hex::decode(format!("{second}{first}")).unwrap();
    match decode_advertisement(&ad).reading.unwrap() {
        Reading::V5(d) => assert_eq!(d.temperature, Some(20320)),
        other => panic!("unexpected format {other:?}"),
    }
}

#[test]
fn failing_later_structure_keeps_the_earlier_reading() {
    let good = "1BFF9904050FE0337CC4ABFC1400340024A5B6EBA544DD1992CB6021";
    let short = "05FF99040500";
    let ad = hex::decode(format!("{good}{short}")).unwrap();
    let outcome = decode_advertisement(&ad);
    assert!(outcome.reading.is_some());
    assert_eq!(outcome.rejected, vec![vec![5u8, 0]]);
}

#[test]
fn other_vendor_is_ignored() {
    let ad = hex::decode("1BFF4C00050FE0337CC4ABFC1400340024A5B6EBA544DD1992CB6021").unwrap();
    let outcome = decode_advertisement(&ad);
    assert!(!outcome.vendor_found);
    assert!(outcome.reading.is_none());
}

#[test]
fn reading_errors() {
    assert_eq!(decode_reading(&[]), Err(ReadingError::Empty));
    assert_eq!(decode_reading(&[3, 0, 0]), Err(ReadingError::UnsupportedFormat(3)));
    assert_eq!(
        decode_reading(&[5, 0, 0]),
        Err(ReadingError::InvalidLength { format: 5, length: 3, expected: 24 })
    );
    assert_eq!(
        decode_reading(&[6]),
        Err(ReadingError::InvalidLength { format: 6, length: 1, expected: 20 })
    );
    assert_eq!(
        decode_reading(&[0xE1, 1]),
        Err(ReadingError::InvalidLength { format: 0xE1, length: 2, expected: 40 })
    );
}

#[test]
fn v6_payload_decodes() {
    let payload = hex::decode("06170C5668C79E007000C90501D9FFCD004C884F").unwrap();
    match decode_reading(&payload).unwrap() {
        Reading::V6(d) => {
            assert_eq!(d.temperature, Some(29500));
            assert_eq!(d.pm2_5, Some(11200));
            assert_eq!(d.co2, Some(201));
        }
        other => panic!("unexpected format {other:?}"),
    }
}

#[test]
fn failed_decode_keeps_previous_record() {
    let mut m = Measurements::new();
    m.update_tag(TagMessage {
        name: "A".to_string(),
        data: hex::decode(V5_AD).unwrap(),
        timestamp: 10,
        rssi: -1,
    });
    let before = *m.tags.get("A").unwrap();
    let outcome = m.update_tag(TagMessage {
        name: "A".to_string(),
        data: hex::decode("05FF99040500").unwrap(),
        timestamp: 20,
        rssi: -2,
    });
    assert!(outcome.vendor_found);
    assert!(outcome.reading.is_none());
    assert_eq!(*m.tags.get("A").unwrap(), before);
    m.update_tag(TagMessage { name: "A".to_string(), data: vec![], timestamp: 30, rssi: -3 });
    assert_eq!(*m.tags.get("A").unwrap(), before);
}

#[test]
fn later_arrival_overwrites_even_if_older() {
    let mut m = Measurements::new();
    let data = hex::decode(V5_AD).unwrap();
    m.update_tag(TagMessage { name: "A".to_string(), data: data.clone(), timestamp: 100, rssi: -1 });
    m.update_tag(TagMessage { name: "A".to_string(), data, timestamp: 50, rssi: -2 });
    assert_eq!(m.tags.len(), 1);
    let t = m.tags.get("A").unwrap();
    assert_eq!(t.last_seen, 50);
    assert_eq!(t.rssi, -2);
}

#[test]
fn table_stays_in_identifier_order() {
    let mut m = Measurements::new();
    let data = hex::decode(V5_AD).unwrap();
    for name in ["b", "a", "c", "a", "ab"] {
        m.update_tag(TagMessage { name: name.to_string(), data: data.clone(), timestamp: 1, rssi: 0 });
    }
    let names: Vec<&str> = (0..m.tags.len()).map(|i| m.tags.entry(i).0.as_str()).collect();
    assert_eq!(names, vec!["a", "ab", "b", "c"]);
}

#[test]
fn post_measurements_updates_gateway_and_tags() {
    let mut m = Measurements::new();
    let msg = GwMessage {
        coordinates: String::new(),
        timestamp: 1736885086,
        nonce: 7,
        gw_mac: "GW".to_string(),
        tags: vec![
            TagMessage { name: "X".to_string(), data: hex::decode(V5_AD).unwrap(), timestamp: 1, rssi: -5 },
            TagMessage { name: "Y".to_string(), data: hex::decode("020106").unwrap(), timestamp: 2, rssi: -6 },
        ],
    };
    let reports = m.post_measurements(msg);
    assert_eq!(m.last_update, 1736885086);
    assert_eq!(m.last_nonce, Some(7));
    assert_eq!(m.mac, "GW");
    assert_eq!(m.tags.len(), 1);
    assert_eq!(reports.len(), 2);
    assert_eq!(reports[1].name, "Y");
    assert!(!reports[1].outcome.vendor_found);
}

#[test]
fn decode_then_store_matches_post() {
    let msg = GwMessage {
        coordinates: String::new(),
        timestamp: 9,
        nonce: 1,
        gw_mac: "GW".to_string(),
        tags: vec![
            TagMessage { name: "B".to_string(), data: hex::decode(V5_AD).unwrap(), timestamp: 1, rssi: -5 },
            TagMessage { name: "A".to_string(), data: hex::decode(E1_AD).unwrap(), timestamp: 2, rssi: -6 },
        ],
    };
    let decoded = decode_message(&msg);
    assert_eq!(decoded.len(), 2);
    assert_eq!(decoded[1].name, "A");
    assert_eq!(decoded[1].timestamp, 2);
    let mut split = Measurements::new();
    split.store_message(msg.timestamp, msg.nonce, msg.gw_mac.clone(), &decoded);
    let mut whole = Measurements::new();
    whole.post_measurements(msg);
    assert_eq!(split.tags.len(), 2);
    assert_eq!(split.tags.entry(0).0, "A");
    assert_eq!(split.tags.entry(0), whole.tags.entry(0));
    assert_eq!(split.tags.entry(1), whole.tags.entry(1));
    assert_eq!(split.last_nonce, whole.last_nonce);
}

#[test]
fn snapshot_is_an_independent_copy() {
    let mut m = Measurements::new();
    m.update_tag(TagMessage { name: "A".to_string(), data: hex::decode(V5_AD).unwrap(), timestamp: 1, rssi: -1 });
    m.mac = "GW".to_string();
    let copy = m.snapshot();
    m.update_tag(TagMessage { name: "B".to_string(), data: hex::decode(V5_AD).unwrap(), timestamp: 2, rssi: -2 });
    assert_eq!(copy.tags.len(), 1);
    assert_eq!(copy.mac, "GW");
    assert_eq!(copy.tags.entry(0), m.tags.entry(0));
    assert_eq!(m.tags.len(), 2);
}
