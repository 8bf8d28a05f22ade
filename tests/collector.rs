use ruuvi_exporter::collector::collect_metrics;
use ruuvi_exporter::config::MacMapping;
use ruuvi_exporter::measurements::Measurements;
use ruuvi_exporter::rw_message::TagMessage;

const V5_AD: &str = "0201061BFF9904050FE0337CC4ABFC1400340024A5B6EBA544DD1992CB6021";
const E1_AD: &str = "2BFF9904E1170C5668C79E0065007004BD11CA00C90A0213E0ACFFFFFFDECDEE10FFFFFFFFFFCBB8334C884F";

fn names_from(yaml: &str) -> MacMapping {
    MacMapping::from_yaml(yaml).unwrap()
}

#[test]
fn test_collect_metrics_basic() {
    let mut measurements = Measurements::new();
    measurements.mac = "AA:BB:CC:DD:EE:FF".to_string();
    measurements.last_update = 1234567890;

    let names = MacMapping::default();
    let output = collect_metrics(&measurements, &names);

    assert!(output.contains("ruuvi_gateway_update_timestamp_seconds"));
    assert!(output.contains("gw_mac=\"AA:BB:CC:DD:EE:FF\""));
    assert!(output.contains("1234567890"));
}

#[test]
fn test_collect_metrics_with_tag() {
    let mut measurements = Measurements::new();
    measurements.mac = "AA:BB:CC:DD:EE:FF".to_string();
    measurements.last_update = 1234567890;

    // Add a tag with data
    let data = hex::decode(V5_AD).unwrap();
    let tag_msg = TagMessage {
        name: "DD:19:92:CB:60:21".to_string(),
        data,
        timestamp: 1234567890,
        rssi: -50,
    };
    measurements.update_tag(tag_msg);

    let names = MacMapping::default();
    let output = collect_metrics(&measurements, &names);

    // Check tag metrics are present
    assert!(output.contains("ruuvi_tag_last_seen_timestamp_seconds"));
    assert!(output.contains("mac=\"DD:19:92:CB:60:21\""));
    assert!(output.contains("ruuvi_tag_temperature_celsius"));
    assert!(output.contains("ruuvi_tag_rssi_dBm"));
}

#[test]
fn test_collect_metrics_with_names() {
    let mut measurements = Measurements::new();
    measurements.mac = "AA:BB:CC:DD:EE:FF".to_string();
    measurements.last_update = 1234567890;

    // Create mapping with names
    let yaml = r#"
            "AA:BB:CC:DD:EE:FF": "Gateway 1"
        "#;
    let names = names_from(yaml);

    let output = collect_metrics(&measurements, &names);

    assert!(output.contains("name=\"Gateway 1\""));
}

#[test]
fn test_collect_metrics_full_output() {
    // Validates the complete output format.
    let mut measurements = Measurements::new();
    measurements.mac = "AA:BB:CC:DD:EE:FF".to_string();
    measurements.last_update = 1609459200; // 2021-01-01 00:00:00 UTC
    measurements.last_nonce = Some(42);

    // Format 5: 0x05 | temp | humidity | pressure | accel_x | accel_y | accel_z | battery+power | movement | sequence
    let data = hex::decode(V5_AD).unwrap();
    let tag_msg = TagMessage {
        name: "DD:19:92:CB:60:21".to_string(),
        data,
        timestamp: 1609459210, // 10 seconds after gateway
        rssi: -55,
    };
    measurements.update_tag(tag_msg);

    // An E1 sensor with air quality data
    let e1_data = hex::decode(E1_AD).unwrap();
    let e1_tag_msg = TagMessage {
        name: "CB:B8:33:4C:88:4F".to_string(),
        data: e1_data,
        timestamp: 1609459220, // 20 seconds after gateway
        rssi: -65,
    };
    measurements.update_tag(e1_tag_msg);

    let yaml = r#"
            "AA:BB:CC:DD:EE:FF": "Test Gateway"
            "DD:19:92:CB:60:21": "Living Room"
            "CB:B8:33:4C:88:4F": "Office"
        "#;
    let names = names_from(yaml);

    let output = collect_metrics(&measurements, &names);

    // Expected output (order and exact format matter for this test)
    let expected = r#"ruuvi_gateway_update_timestamp_seconds{gw_mac="AA:BB:CC:DD:EE:FF",name="Test Gateway"} 1609459200
ruuvi_gateway_nonce{gw_mac="AA:BB:CC:DD:EE:FF",name="Test Gateway"} 42
ruuvi_tag_last_seen_timestamp_seconds{mac="CB:B8:33:4C:88:4F",gw_mac="AA:BB:CC:DD:EE:FF",name="Office"} 1609459220
ruuvi_tag_sequence_number{mac="CB:B8:33:4C:88:4F",gw_mac="AA:BB:CC:DD:EE:FF",name="Office"} 14601710
ruuvi_tag_temperature_celsius{mac="CB:B8:33:4C:88:4F",gw_mac="AA:BB:CC:DD:EE:FF",name="Office"} 29.5
ruuvi_tag_humidity_ratio{mac="CB:B8:33:4C:88:4F",gw_mac="AA:BB:CC:DD:EE:FF",name="Office"} 0.553
ruuvi_tag_pressure_pascals{mac="CB:B8:33:4C:88:4F",gw_mac="AA:BB:CC:DD:EE:FF",name="Office"} 101102
ruuvi_tag_pm1_0_ugm3{mac="CB:B8:33:4C:88:4F",gw_mac="AA:BB:CC:DD:EE:FF",name="Office"} 10.1
ruuvi_tag_pm4_0_ugm3{mac="CB:B8:33:4C:88:4F",gw_mac="AA:BB:CC:DD:EE:FF",name="Office"} 121.3
ruuvi_tag_pm10_0_ugm3{mac="CB:B8:33:4C:88:4F",gw_mac="AA:BB:CC:DD:EE:FF",name="Office"} 455.4
ruuvi_tag_pm2_5_ugm3{mac="CB:B8:33:4C:88:4F",gw_mac="AA:BB:CC:DD:EE:FF",name="Office"} 11.2
ruuvi_tag_co2_ppm{mac="CB:B8:33:4C:88:4F",gw_mac="AA:BB:CC:DD:EE:FF",name="Office"} 201
ruuvi_tag_voc_index{mac="CB:B8:33:4C:88:4F",gw_mac="AA:BB:CC:DD:EE:FF",name="Office"} 20
ruuvi_tag_nox_index{mac="CB:B8:33:4C:88:4F",gw_mac="AA:BB:CC:DD:EE:FF",name="Office"} 4
ruuvi_tag_luminosity_lux{mac="CB:B8:33:4C:88:4F",gw_mac="AA:BB:CC:DD:EE:FF",name="Office"} 13027
ruuvi_tag_rssi_dBm{mac="CB:B8:33:4C:88:4F",gw_mac="AA:BB:CC:DD:EE:FF",name="Office"} -65
ruuvi_tag_last_seen_timestamp_seconds{mac="DD:19:92:CB:60:21",gw_mac="AA:BB:CC:DD:EE:FF",name="Living Room"} 1609459210
ruuvi_tag_sequence_number{mac="DD:19:92:CB:60:21",gw_mac="AA:BB:CC:DD:EE:FF",name="Living Room"} 42308
ruuvi_tag_temperature_celsius{mac="DD:19:92:CB:60:21",gw_mac="AA:BB:CC:DD:EE:FF",name="Living Room"} 20.32
ruuvi_tag_humidity_ratio{mac="DD:19:92:CB:60:21",gw_mac="AA:BB:CC:DD:EE:FF",name="Living Room"} 0.3295
ruuvi_tag_pressure_pascals{mac="DD:19:92:CB:60:21",gw_mac="AA:BB:CC:DD:EE:FF",name="Living Room"} 100347
ruuvi_tag_movement_counter{mac="DD:19:92:CB:60:21",gw_mac="AA:BB:CC:DD:EE:FF",name="Living Room"} 235
ruuvi_tag_acceleration_x_g{mac="DD:19:92:CB:60:21",gw_mac="AA:BB:CC:DD:EE:FF",name="Living Room"} -1.004
ruuvi_tag_acceleration_y_g{mac="DD:19:92:CB:60:21",gw_mac="AA:BB:CC:DD:EE:FF",name="Living Room"} 0.052
ruuvi_tag_acceleration_z_g{mac="DD:19:92:CB:60:21",gw_mac="AA:BB:CC:DD:EE:FF",name="Living Room"} 0.036
ruuvi_tag_battery_volts{mac="DD:19:92:CB:60:21",gw_mac="AA:BB:CC:DD:EE:FF",name="Living Room"} 2.925
ruuvi_tag_tx_power_dBm{mac="DD:19:92:CB:60:21",gw_mac="AA:BB:CC:DD:EE:FF",name="Living Room"} 4
ruuvi_tag_rssi_dBm{mac="DD:19:92:CB:60:21",gw_mac="AA:BB:CC:DD:EE:FF",name="Living Room"} -55
"#;

    assert_eq!(output, expected, "Output format has changed!");
}

#[test]
fn scrape_before_ingestion_is_one_line() {
    let m = Measurements::new();
    let output = collect_metrics(&m, &MacMapping::default());
    assert_eq!(output, "ruuvi_gateway_update_timestamp_seconds{gw_mac=\"\"} 0\n");
}

#[test]
fn sensors_are_listed_by_identifier_not_arrival() {
    let data = hex::decode(V5_AD).unwrap();
    let mut first = Measurements::new();
    first.update_tag(TagMessage { name: "B".to_string(), data: data.clone(), timestamp: 1, rssi: -1 });
    first.update_tag(TagMessage { name: "A".to_string(), data: data.clone(), timestamp: 2, rssi: -2 });
    let mut second = Measurements::new();
    second.update_tag(TagMessage { name: "A".to_string(), data: data.clone(), timestamp: 2, rssi: -2 });
    second.update_tag(TagMessage { name: "B".to_string(), data, timestamp: 1, rssi: -1 });
    let names = MacMapping::default();
    let out1 = collect_metrics(&first, &names);
    let out2 = collect_metrics(&second, &names);
    assert_eq!(out1, out2);
    let a = out1.find("mac=\"A\"").unwrap();
    let b = out1.find("mac=\"B\"").unwrap();
    assert!(a < b);
}

#[test]
fn unavailable_fields_are_not_rendered() {
    // Temperature 0x8000, humidity 0xFFFF, pressure 0xFFFF, x-axis 0x8000,
    // battery and tx power all ones, movement 0xFF, sequence 0xFFFF.
    let ad = hex::decode("1BFF9904058000FFFFFFFF800000340024FFFFFFFFFFDD1992CB6021").unwrap();
    let mut m = Measurements::new();
    m.update_tag(TagMessage { name: "S".to_string(), data: ad, timestamp: 3, rssi: -70 });
    let output = collect_metrics(&m, &MacMapping::default());
    assert_eq!(
        output,
        "ruuvi_gateway_update_timestamp_seconds{gw_mac=\"\"} 0\n\
         ruuvi_tag_last_seen_timestamp_seconds{mac=\"S\",gw_mac=\"\"} 3\n\
         ruuvi_tag_rssi_dBm{mac=\"S\",gw_mac=\"\"} -70\n"
    );
}

#[test]
fn e1_reading_has_no_motion_or_power_lines() {
    let mut m = Measurements::new();
    m.update_tag(TagMessage {
        name: "E".to_string(),
        data: hex::decode(E1_AD).unwrap(),
        timestamp: 1,
        rssi: -1,
    });
    let output = collect_metrics(&m, &MacMapping::default());
    assert!(output.contains("ruuvi_tag_pm2_5_ugm3{mac=\"E\",gw_mac=\"\"} 11.2\n"));
    assert!(output.contains("ruuvi_tag_co2_ppm{mac=\"E\",gw_mac=\"\"} 201\n"));
    assert!(output.contains("ruuvi_tag_voc_index{mac=\"E\",gw_mac=\"\"} 20\n"));
    assert!(output.contains("ruuvi_tag_nox_index{mac=\"E\",gw_mac=\"\"} 4\n"));
    assert!(output.contains("ruuvi_tag_luminosity_lux{mac=\"E\",gw_mac=\"\"} 13027\n"));
    assert!(!output.contains("acceleration"));
    assert!(!output.contains("battery"));
    assert!(!output.contains("tx_power"));
}

#[test]
fn v6_reading_lines() {
    let mut m = Measurements::new();
    m.update_tag(TagMessage {
        name: "S6".to_string(),
        data: hex::decode("17FF990406170C5668C79E007000C90501D9FFCD004C884F").unwrap(),
        timestamp: 1,
        rssi: -1,
    });
    let output = collect_metrics(&m, &MacMapping::default());
    assert!(output.contains("ruuvi_tag_temperature_celsius{mac=\"S6\",gw_mac=\"\"} 29.5\n"));
    assert!(output.contains("ruuvi_tag_pm2_5_ugm3{mac=\"S6\",gw_mac=\"\"} 11.2\n"));
    assert!(!output.contains("pm1_0"));
}

#[test]
fn gateway_nonce_line_appears_once_known() {
    let mut m = Measurements::new();
    m.last_nonce = Some(18446744073709551615);
    m.mac = "G".to_string();
    let output = collect_metrics(&m, &MacMapping::default());
    assert_eq!(
        output,
        "ruuvi_gateway_update_timestamp_seconds{gw_mac=\"G\"} 0\n\
         ruuvi_gateway_nonce{gw_mac=\"G\"} 18446744073709551615\n"
    );
}
