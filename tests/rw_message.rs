use ruuvi_exporter::rw_message::{
    scan, AdMessage, AdMessageIter, AdMessageParseError, GwMessage, InvalidHex, RawGwMessage,
    RawTagMessage, TagMessage,
};

#[test]
fn ad_message_iter() {
    let data =
        hex::decode("0201061BFF9904050FE0337CC4ABFC1400340024A5B6EBA544DD1992CB6021").unwrap();
    let mut iter = AdMessageIter(&data);
    println!("{iter:?}");
    assert_eq!(
        iter.next(),
        Some(Ok(AdMessage {
            ad_type: 1,
            payload: vec![6]
        }))
    );
    println!("{iter:?}");
    assert_eq!(
        iter.next(),
        Some(Ok(AdMessage {
            ad_type: 0xff,
            payload: hex::decode("9904050FE0337CC4ABFC1400340024A5B6EBA544DD1992CB6021")
                .unwrap()
        }))
    );
    assert_eq!(iter.next(), None);
}

#[test]
fn empty_buffer_yields_nothing() {
    let mut iter = AdMessageIter(&[]);
    assert_eq!(iter.next(), None);
    assert!(scan(&[]).is_empty());
}

#[test]
fn structures_consume_the_whole_buffer() {
    let data = [2u8, 1, 6, 3, 0xff, 0x99, 0x04, 1, 9];
    let items = scan(&data);
    assert_eq!(items.len(), 3);
    let framed: usize = items
        .iter()
        .map(|i| i.as_ref().unwrap().payload.len() + 2)
        .sum();
    assert_eq!(framed, data.len());
    assert_eq!(items[2], Ok(AdMessage { ad_type: 9, payload: vec![] }));
}

#[test]
fn truncated_structure_gives_one_failure_and_stops() {
    let data = [2u8, 1, 6, 5, 0xff, 0x99];
    let items = scan(&data);
    assert_eq!(
        items,
        vec![
            Ok(AdMessage { ad_type: 1, payload: vec![6] }),
            Err(AdMessageParseError)
        ]
    );
    let mut iter = AdMessageIter(&data[3..]);
    assert_eq!(iter.next(), Some(Err(AdMessageParseError)));
    assert_eq!(iter.next(), None);
}

#[test]
fn zero_length_byte_is_a_framing_failure() {
    assert_eq!(scan(&[0u8, 1, 2]), vec![Err(AdMessageParseError)]);
    assert_eq!(scan(&[7u8]), vec![Err(AdMessageParseError)]);
}

#[test]
fn tag_message_decodes_hex_of_either_case() {
    let raw = RawTagMessage { data: "0aFF".to_string(), timestamp: 5, rssi: -3 };
    let t = TagMessage::from_raw("id", &raw).unwrap();
    assert_eq!(
        t,
        TagMessage { name: "id".to_string(), data: vec![0x0a, 0xff], timestamp: 5, rssi: -3 }
    );
}

#[test]
fn tag_message_rejects_bad_hex() {
    let odd = RawTagMessage { data: "abc".to_string(), timestamp: 0, rssi: 0 };
    assert_eq!(TagMessage::from_raw("id", &odd), Err(InvalidHex));
    let bad = RawTagMessage { data: "zz".to_string(), timestamp: 0, rssi: 0 };
    assert_eq!(TagMessage::from_raw("id", &bad), Err(InvalidHex));
}

#[test]
fn gw_message_parsing() {
    // Example message captured from a gateway, as the JSON layer hands it over
    let raw = RawGwMessage {
        coordinates: String::new(),
        timestamp: 1736885086,
        nonce: 3267643756,
        gw_mac: "FF:81:4E:A5:22:E7".to_string(),
        tags: vec![
            (
                "DD:19:92:CB:60:21".to_string(),
                RawTagMessage {
                    data: "0201061BFF9904050FE0337CC4ABFC1400340024A5B6EBA544DD1992CB6021".to_string(),
                    timestamp: 1736885086,
                    rssi: -50,
                },
            ),
            (
                "DE:4F:BC:29:EC:B5".to_string(),
                RawTagMessage {
                    data: "0201061BFF9904050FF33391C47D0008FFF403F8837637EE6EDE4FBC29ECB5".to_string(),
                    timestamp: 1736885085,
                    rssi: -63,
                },
            ),
        ],
    };
    let m = GwMessage::from_raw(&raw).unwrap();
    assert_eq!(m.nonce, 3267643756);
    assert_eq!(m.gw_mac, "FF:81:4E:A5:22:E7");
    assert_eq!(m.tags.len(), 2);
    assert_eq!(m.tags[1].name, "DE:4F:BC:29:EC:B5");
    assert_eq!(m.tags[1].data[..3], [0x02, 0x01, 0x06]);

    let mut bad = raw.clone();
    bad.tags[1].1.data = "0".to_string();
    assert_eq!(GwMessage::from_raw(&bad), Err(InvalidHex));
}
