use ruuvi_exporter::metrics::{labelset, metric};

#[test]
fn test_metric_formatting() {
    let m = metric("temperature")
        .label("sensor", "abc")
        .label("room", "kitchen")
        .value(23.5.to_string());
    assert_eq!(
        m.to_string(),
        "temperature{sensor=\"abc\",room=\"kitchen\"} 23.5"
    );

    // A metric without labels
    let m = metric("counter").value(42.to_string());
    assert_eq!(m.to_string(), "counter 42");

    // Test label sets
    let common_labels = labelset().label("datacenter", "eu-1").label("rack", "r42");

    let m = metric("temperature")
        .labels(&common_labels)
        .label("sensor", "abc")
        .value(23.5.to_string());

    assert_eq!(
        m.to_string(),
        "temperature{datacenter=\"eu-1\",rack=\"r42\",sensor=\"abc\"} 23.5"
    );

    let m = metric("humidity").labels(&common_labels).value(45.to_string());

    assert_eq!(
        m.to_string(),
        "humidity{datacenter=\"eu-1\",rack=\"r42\"} 45"
    );
}

#[test]
fn metric_with_single_label() {
    let m = metric("x").label("k", "v").value("-1".to_string());
    assert_eq!(m.to_string(), "x{k=\"v\"} -1");
}

#[test]
fn empty_label_set_adds_no_braces() {
    let m = metric("x").labels(&labelset()).value("0".to_string());
    assert_eq!(m.to_string(), "x 0");
}
