//! The metrics document: gateway lines first, then each sensor's lines in
//! ascending order of its identifier.

use vstd::prelude::*;
use crate::config::{name_for, MacMapping, NamePair};
use crate::measurements::{keys_sorted, lemma_arrival_order_irrelevant, sorted_insert, Entry, Measurements, Tag};
use crate::metrics::{labelset, line_text, metric, LabelSet, LabelView};
use crate::reading::Reading;
use crate::text::{append_decimal, decimal_text, int_text, signed};

verus! {

/// The quantities that the document reports, each under its metric name.
#[derive(Debug, Clone, Copy, PartialEq, Eq)]
pub enum MetricField {
    SequenceNumber,
    Temperature,
    Humidity,
    Pressure,
    MovementCounter,
    AccelerationX,
    AccelerationY,
    AccelerationZ,
    Battery,
    TxPower,
    Pm1_0,
    Pm2_5,
    Pm4_0,
    Pm10_0,
    Co2,
    VocIndex,
    NoxIndex,
    Luminosity,
    LastSeen,
    Rssi,
    GatewayUpdate,
    GatewayNonce,
}

pub open spec fn metric_name(f: MetricField) -> Seq<char> {
    match f {
        MetricField::SequenceNumber => "ruuvi_tag_sequence_number"@,
        MetricField::Temperature => "ruuvi_tag_temperature_celsius"@,
        MetricField::Humidity => "ruuvi_tag_humidity_ratio"@,
        MetricField::Pressure => "ruuvi_tag_pressure_pascals"@,
        MetricField::MovementCounter => "ruuvi_tag_movement_counter"@,
        MetricField::AccelerationX => "ruuvi_tag_acceleration_x_g"@,
        MetricField::AccelerationY => "ruuvi_tag_acceleration_y_g"@,
        MetricField::AccelerationZ => "ruuvi_tag_acceleration_z_g"@,
        MetricField::Battery => "ruuvi_tag_battery_volts"@,
        MetricField::TxPower => "ruuvi_tag_tx_power_dBm"@,
        MetricField::Pm1_0 => "ruuvi_tag_pm1_0_ugm3"@,
        MetricField::Pm2_5 => "ruuvi_tag_pm2_5_ugm3"@,
        MetricField::Pm4_0 => "ruuvi_tag_pm4_0_ugm3"@,
        MetricField::Pm10_0 => "ruuvi_tag_pm10_0_ugm3"@,
        MetricField::Co2 => "ruuvi_tag_co2_ppm"@,
        MetricField::VocIndex => "ruuvi_tag_voc_index"@,
        MetricField::NoxIndex => "ruuvi_tag_nox_index"@,
        MetricField::Luminosity => "ruuvi_tag_luminosity_lux"@,
        MetricField::LastSeen => "ruuvi_tag_last_seen_timestamp_seconds"@,
        MetricField::Rssi => "ruuvi_tag_rssi_dBm"@,
        MetricField::GatewayUpdate => "ruuvi_gateway_update_timestamp_seconds"@,
        MetricField::GatewayNonce => "ruuvi_gateway_nonce"@,
    }
}

/// A metric as its field and rendered value.
pub type MetricPair = (MetricField, Seq<char>);

/// One line of the document, line break included.
pub open spec fn raw_line(labels: Seq<LabelView>, name: Seq<char>, value: Seq<char>) -> Seq<char> {
    line_text(name, labels, value) + seq!['\n']
}

pub open spec fn line(labels: Seq<LabelView>, m: MetricPair) -> Seq<char> {
    raw_line(labels, metric_name(m.0), m.1)
}

/// The lines of several metrics sharing one label list.
pub open spec fn lines_text(ms: Seq<MetricPair>, labels: Seq<LabelView>) -> Seq<char>
    decreases ms.len(),
{
    if ms.len() == 0 {
        Seq::<char>::empty()
    } else {
        line(labels, ms[0]) + lines_text(ms.drop_first(), labels)
    }
}

/// A metric whose value may be absent: no metric then.
pub open spec fn opt_metric(field: MetricField, value: Option<Seq<char>>) -> Seq<MetricPair> {
    match value {
        Some(v) => seq![(field, v)],
        None => Seq::<MetricPair>::empty(),
    }
}

pub open spec fn opt_decimal(v: Option<int>, scale: nat) -> Option<Seq<char>> {
    match v {
        Some(x) => Some(decimal_text(x, scale)),
        None => None,
    }
}

pub open spec fn opt_i32(v: Option<i32>) -> Option<int> {
    match v { Some(x) => Some(x as int), None => None }
}

pub open spec fn opt_u32(v: Option<u32>) -> Option<int> {
    match v { Some(x) => Some(x as int), None => None }
}

pub open spec fn opt_u16(v: Option<u16>) -> Option<int> {
    match v { Some(x) => Some(x as int), None => None }
}

pub open spec fn opt_i8(v: Option<i8>) -> Option<int> {
    match v { Some(x) => Some(x as int), None => None }
}

/// Sequence number, temperature in degrees Celsius, humidity as a ratio and
/// pressure in pascals.
pub open spec fn environmental_metrics(
    sequence: Option<u32>,
    temperature: Option<i32>,
    humidity: Option<u32>,
    pressure: Option<u32>,
) -> Seq<MetricPair> {
    opt_metric(MetricField::SequenceNumber, opt_decimal(opt_u32(sequence), 0))
        + opt_metric(MetricField::Temperature, opt_decimal(opt_i32(temperature), 3))
        + opt_metric(MetricField::Humidity, opt_decimal(opt_u32(humidity), 6))
        + opt_metric(MetricField::Pressure, opt_decimal(opt_u32(pressure), 0))
}

/// PM2.5 in micrograms per cubic metre, CO2 in ppm, VOC and NOx indices and
/// luminosity in lux.
pub open spec fn air_quality_metrics(
    pm2_5: Option<u32>,
    co2: Option<u16>,
    voc_index: Option<u16>,
    nox_index: Option<u16>,
    luminosity: Option<u32>,
) -> Seq<MetricPair> {
    opt_metric(MetricField::Pm2_5, opt_decimal(opt_u32(pm2_5), 3))
        + opt_metric(MetricField::Co2, opt_decimal(opt_u16(co2), 0))
        + opt_metric(MetricField::VocIndex, opt_decimal(opt_u16(voc_index), 0))
        + opt_metric(MetricField::NoxIndex, opt_decimal(opt_u16(nox_index), 0))
        + opt_metric(MetricField::Luminosity, opt_decimal(opt_u32(luminosity), 3))
}

/// The three axes in g, all or none.
pub open spec fn acceleration_metrics(a: Option<(i16, i16, i16)>) -> Seq<MetricPair> {
    match a {
        Some(v) => seq![
            (MetricField::AccelerationX, decimal_text(v.0 as int, 3)),
            (MetricField::AccelerationY, decimal_text(v.1 as int, 3)),
            (MetricField::AccelerationZ, decimal_text(v.2 as int, 3)),
        ],
        None => Seq::<MetricPair>::empty(),
    }
}

/// The metrics of a reading, in the declared order of its format.
pub open spec fn reading_metrics(r: Reading) -> Seq<MetricPair> {
    match r {
        Reading::V5(d) => environmental_metrics(d.sequence, d.temperature, d.humidity, d.pressure)
            + opt_metric(MetricField::MovementCounter, opt_decimal(opt_u32(d.movement_counter), 0))
            + acceleration_metrics(d.acceleration)
            + opt_metric(MetricField::Battery, opt_decimal(opt_u16(d.battery), 3))
            + opt_metric(MetricField::TxPower, opt_decimal(opt_i8(d.tx_power), 0)),
        Reading::V6(d) => environmental_metrics(d.sequence, d.temperature, d.humidity, d.pressure)
            + air_quality_metrics(d.pm2_5, d.co2, d.voc_index, d.nox_index, d.luminosity),
        Reading::E1(d) => environmental_metrics(d.sequence, d.temperature, d.humidity, d.pressure)
            + opt_metric(MetricField::Pm1_0, opt_decimal(opt_u32(d.pm1_0), 3))
            + opt_metric(MetricField::Pm4_0, opt_decimal(opt_u32(d.pm4_0), 3))
            + opt_metric(MetricField::Pm10_0, opt_decimal(opt_u32(d.pm10_0), 3))
            + air_quality_metrics(d.pm2_5, d.co2, d.voc_index, d.nox_index, d.luminosity),
    }
}

/// A sensor's metrics: last-seen time, the reading's metrics, then signal
/// strength.
pub open spec fn tag_metrics(t: Tag) -> Seq<MetricPair> {
    seq![(MetricField::LastSeen, int_text(t.last_seen as int))]
        + reading_metrics(t.values)
        + seq![(MetricField::Rssi, int_text(t.rssi as int))]
}

/// A label list with the `name` label appended where the table has one for `id`.
pub open spec fn with_name(base: Seq<LabelView>, id: Seq<char>, names: Seq<NamePair>) -> Seq<LabelView> {
    match name_for(names, id) {
        Some(n) => base.push(("name"@, n)),
        None => base,
    }
}

pub open spec fn gateway_labels(mac: Seq<char>, names: Seq<NamePair>) -> Seq<LabelView> {
    with_name(seq![("gw_mac"@, mac)], mac, names)
}

pub open spec fn tag_labels(id: Seq<char>, mac: Seq<char>, names: Seq<NamePair>) -> Seq<LabelView> {
    with_name(seq![("mac"@, id), ("gw_mac"@, mac)], id, names)
}

/// The gateway's metrics: update time always, nonce when known.
pub open spec fn gateway_metrics(last_update: u64, last_nonce: Option<u64>) -> Seq<MetricPair> {
    seq![(MetricField::GatewayUpdate, int_text(last_update as int))]
        + opt_metric(MetricField::GatewayNonce, match last_nonce {
            Some(n) => Some(int_text(n as int)),
            None => None,
        })
}

/// The lines of the sensors, in table order.
pub open spec fn entries_text(es: Seq<Entry>, mac: Seq<char>, names: Seq<NamePair>) -> Seq<char>
    decreases es.len(),
{
    if es.len() == 0 {
        Seq::<char>::empty()
    } else {
        let e = es.last();
        entries_text(es.drop_last(), mac, names) + lines_text(tag_metrics(e.1), tag_labels(e.0, mac, names))
    }
}

/// The whole document.
pub open spec fn document(
    last_update: u64,
    last_nonce: Option<u64>,
    mac: Seq<char>,
    es: Seq<Entry>,
    names: Seq<NamePair>,
) -> Seq<char> {
    lines_text(gateway_metrics(last_update, last_nonce), gateway_labels(mac, names))
        + entries_text(es, mac, names)
}

proof fn lemma_lines_concat(a: Seq<MetricPair>, b: Seq<MetricPair>, labels: Seq<LabelView>)
    ensures
        lines_text(a + b, labels) == lines_text(a, labels) + lines_text(b, labels),
    decreases a.len(),
{
    if a.len() == 0 {
        assert(a + b =~= b);
    } else {
        assert((a + b).drop_first() =~= a.drop_first() + b);
        lemma_lines_concat(a.drop_first(), b, labels);
        assert(lines_text(a + b, labels) =~= lines_text(a, labels) + lines_text(b, labels));
    }
}

proof fn lemma_lines_single(m: MetricPair, labels: Seq<LabelView>)
    ensures
        lines_text(seq![m], labels) == line(labels, m),
{
    assert(seq![m].drop_first() =~= Seq::<MetricPair>::empty());
    assert(lines_text(Seq::<MetricPair>::empty(), labels) == Seq::<char>::empty());
    assert(lines_text(seq![m], labels) =~= line(labels, m));
}

fn unsigned_string(v: u64, scale: u32) -> (r: String)
    requires
        scale <= 6,
    ensures
        r@ == decimal_text(v as int, scale as nat),
{
    let mut s = String::new();
    append_decimal(&mut s, false, v, scale);
    s
}

fn signed_string(v: i64, scale: u32) -> (r: String)
    requires
        scale <= 6,
        v > i64::MIN,
    ensures
        r@ == decimal_text(v as int, scale as nat),
{
    let mut s = String::new();
    let negative = v < 0;
    let magnitude: u64 = if negative { (-v) as u64 } else { v as u64 };
    append_decimal(&mut s, negative, magnitude, scale);
    assert(signed(negative, magnitude as nat) == v as int);
    s
}

/// Appends one metric line.
fn add_metric(metrics: &mut String, name: &str, labels: &LabelSet, value: String)
    ensures
        final(metrics)@ == old(metrics)@ + raw_line(labels@, name@, value@),
{
    let m = metric(name).labels(labels).value(value);
    let text = m.to_string();
    metrics.append(text.as_str());
    metrics.append("\n");
    proof {
        reveal_strlit("\n");
        assert(m.label_list() =~= labels@);
        assert(final(metrics)@ =~= old(metrics)@ + raw_line(labels@, name@, value@));
    }
}

/// Appends one metric line when the value is present.
fn add_optional_metric(
    metrics: &mut String,
    field: Ghost<MetricField>,
    name: &str,
    labels: &LabelSet,
    value: Option<String>,
)
    requires
        metric_name(field@) == name@,
    ensures
        final(metrics)@ == old(metrics)@ + lines_text(
            opt_metric(field@, match value { Some(s) => Some(s@), None => None::<Seq<char>> }),
            labels@,
        ),
{
    match value {
        Some(v) => {
            add_metric(metrics, name, labels, v);
            proof {
                lemma_lines_single((field@, v@), labels@);
            }
        },
        None => {
            assert(final(metrics)@ =~= old(metrics)@ + Seq::<char>::empty());
        },
    }
}

fn opt_u32_string(v: Option<u32>, scale: u32) -> (r: Option<String>)
    requires
        scale <= 6,
    ensures
        (match r { Some(s) => Some(s@), None => None::<Seq<char>> }) == opt_decimal(opt_u32(v), scale as nat),
{
    match v {
        Some(x) => Some(unsigned_string(x as u64, scale)),
        None => None,
    }
}

fn opt_u16_string(v: Option<u16>, scale: u32) -> (r: Option<String>)
    requires
        scale <= 6,
    ensures
        (match r { Some(s) => Some(s@), None => None::<Seq<char>> }) == opt_decimal(opt_u16(v), scale as nat),
{
    match v {
        Some(x) => Some(unsigned_string(x as u64, scale)),
        None => None,
    }
}

fn opt_i32_string(v: Option<i32>, scale: u32) -> (r: Option<String>)
    requires
        scale <= 6,
    ensures
        (match r { Some(s) => Some(s@), None => None::<Seq<char>> }) == opt_decimal(opt_i32(v), scale as nat),
{
    match v {
        Some(x) => Some(signed_string(x as i64, scale)),
        None => None,
    }
}

fn opt_i8_string(v: Option<i8>, scale: u32) -> (r: Option<String>)
    requires
        scale <= 6,
    ensures
        (match r { Some(s) => Some(s@), None => None::<Seq<char>> }) == opt_decimal(opt_i8(v), scale as nat),
{
    match v {
        Some(x) => Some(signed_string(x as i64, scale)),
        None => None,
    }
}

proof fn lemma_extend(start: Seq<char>, acc: Seq<MetricPair>, next: Seq<MetricPair>, labels: Seq<LabelView>)
    ensures
        start + lines_text(acc, labels) + lines_text(next, labels) == start + lines_text(acc + next, labels),
{
    lemma_lines_concat(acc, next, labels);
    assert(start + lines_text(acc, labels) + lines_text(next, labels) =~= start + lines_text(acc + next, labels));
}

fn add_common_environmental_metrics(
    metrics: &mut String,
    labels: &LabelSet,
    measurement_sequence: Option<u32>,
    temperature: Option<i32>,
    humidity: Option<u32>,
    pressure: Option<u32>,
)
    ensures
        final(metrics)@ == old(metrics)@ + lines_text(
            environmental_metrics(measurement_sequence, temperature, humidity, pressure),
            labels@,
        ),
{
    let ghost l = labels@;
    let ghost start = metrics@;
    let ghost a = opt_metric(MetricField::SequenceNumber, opt_decimal(opt_u32(measurement_sequence), 0));
    let ghost b = opt_metric(MetricField::Temperature, opt_decimal(opt_i32(temperature), 3));
    let ghost c = opt_metric(MetricField::Humidity, opt_decimal(opt_u32(humidity), 6));
    let ghost d = opt_metric(MetricField::Pressure, opt_decimal(opt_u32(pressure), 0));
    add_optional_metric(metrics, Ghost(MetricField::SequenceNumber), "ruuvi_tag_sequence_number", labels, opt_u32_string(measurement_sequence, 0));
    add_optional_metric(metrics, Ghost(MetricField::Temperature), "ruuvi_tag_temperature_celsius", labels, opt_i32_string(temperature, 3));
    proof {
        lemma_extend(start, a, b, l);
    }
    add_optional_metric(metrics, Ghost(MetricField::Humidity), "ruuvi_tag_humidity_ratio", labels, opt_u32_string(humidity, 6));
    proof {
        lemma_extend(start, a + b, c, l);
    }
    add_optional_metric(metrics, Ghost(MetricField::Pressure), "ruuvi_tag_pressure_pascals", labels, opt_u32_string(pressure, 0));
    proof {
        lemma_extend(start, a + b + c, d, l);
    }
}

fn add_air_quality_metrics(
    metrics: &mut String,
    labels: &LabelSet,
    pm2_5: Option<u32>,
    co2: Option<u16>,
    voc_index: Option<u16>,
    nox_index: Option<u16>,
    luminosity: Option<u32>,
)
    ensures
        final(metrics)@ == old(metrics)@ + lines_text(
            air_quality_metrics(pm2_5, co2, voc_index, nox_index, luminosity),
            labels@,
        ),
{
    let ghost l = labels@;
    let ghost start = metrics@;
    let ghost a = opt_metric(MetricField::Pm2_5, opt_decimal(opt_u32(pm2_5), 3));
    let ghost b = opt_metric(MetricField::Co2, opt_decimal(opt_u16(co2), 0));
    let ghost c = opt_metric(MetricField::VocIndex, opt_decimal(opt_u16(voc_index), 0));
    let ghost d = opt_metric(MetricField::NoxIndex, opt_decimal(opt_u16(nox_index), 0));
    let ghost e = opt_metric(MetricField::Luminosity, opt_decimal(opt_u32(luminosity), 3));
    add_optional_metric(metrics, Ghost(MetricField::Pm2_5), "ruuvi_tag_pm2_5_ugm3", labels, opt_u32_string(pm2_5, 3));
    add_optional_metric(metrics, Ghost(MetricField::Co2), "ruuvi_tag_co2_ppm", labels, opt_u16_string(co2, 0));
    proof {
        lemma_extend(start, a, b, l);
    }
    add_optional_metric(metrics, Ghost(MetricField::VocIndex), "ruuvi_tag_voc_index", labels, opt_u16_string(voc_index, 0));
    proof {
        lemma_extend(start, a + b, c, l);
    }
    add_optional_metric(metrics, Ghost(MetricField::NoxIndex), "ruuvi_tag_nox_index", labels, opt_u16_string(nox_index, 0));
    proof {
        lemma_extend(start, a + b + c, d, l);
    }
    add_optional_metric(metrics, Ghost(MetricField::Luminosity), "ruuvi_tag_luminosity_lux", labels, opt_u32_string(luminosity, 3));
    proof {
        lemma_extend(start, a + b + c + d, e, l);
    }
}

fn add_acceleration_metrics(metrics: &mut String, labels: &LabelSet, acceleration: Option<(i16, i16, i16)>)
    ensures
        final(metrics)@ == old(metrics)@ + lines_text(acceleration_metrics(acceleration), labels@),
{
    let ghost l = labels@;
    let ghost start = metrics@;
    if let Some((x, y, z)) = acceleration {
        let ghost mx = (MetricField::AccelerationX, decimal_text(x as int, 3));
        let ghost my = (MetricField::AccelerationY, decimal_text(y as int, 3));
        let ghost mz = (MetricField::AccelerationZ, decimal_text(z as int, 3));
        add_metric(metrics, "ruuvi_tag_acceleration_x_g", labels, signed_string(x as i64, 3));
        proof {
            lemma_lines_single(mx, l);
        }
        add_metric(metrics, "ruuvi_tag_acceleration_y_g", labels, signed_string(y as i64, 3));
        proof {
            lemma_lines_single(my, l);
            lemma_extend(start, seq![mx], seq![my], l);
        }
        add_metric(metrics, "ruuvi_tag_acceleration_z_g", labels, signed_string(z as i64, 3));
        proof {
            lemma_lines_single(mz, l);
            lemma_extend(start, seq![mx] + seq![my], seq![mz], l);
            assert(seq![mx] + seq![my] + seq![mz] =~= acceleration_metrics(acceleration));
        }
    } else {
        assert(lines_text(Seq::<MetricPair>::empty(), l) == Seq::<char>::empty());
        assert(final(metrics)@ =~= start + lines_text(acceleration_metrics(acceleration), l));
    }
}

fn add_reading_metrics(metrics: &mut String, labels: &LabelSet, values: &Reading)
    ensures
        final(metrics)@ == old(metrics)@ + lines_text(reading_metrics(*values), labels@),
{
    let ghost l = labels@;
    let ghost start = metrics@;
    match values {
        Reading::V5(data) => {
            let ghost a = environmental_metrics(data.sequence, data.temperature, data.humidity, data.pressure);
            let ghost b = opt_metric(MetricField::MovementCounter, opt_decimal(opt_u32(data.movement_counter), 0));
            let ghost c = acceleration_metrics(data.acceleration);
            let ghost d = opt_metric(MetricField::Battery, opt_decimal(opt_u16(data.battery), 3));
            let ghost e = opt_metric(MetricField::TxPower, opt_decimal(opt_i8(data.tx_power), 0));
            add_common_environmental_metrics(metrics, labels, data.sequence, data.temperature, data.humidity, data.pressure);
            add_optional_metric(metrics, Ghost(MetricField::MovementCounter), "ruuvi_tag_movement_counter", labels, opt_u32_string(data.movement_counter, 0));
            proof {
                lemma_extend(start, a, b, l);
            }
            add_acceleration_metrics(metrics, labels, data.acceleration);
            proof {
                lemma_extend(start, a + b, c, l);
            }
            add_optional_metric(metrics, Ghost(MetricField::Battery), "ruuvi_tag_battery_volts", labels, opt_u16_string(data.battery, 3));
            proof {
                lemma_extend(start, a + b + c, d, l);
            }
            add_optional_metric(metrics, Ghost(MetricField::TxPower), "ruuvi_tag_tx_power_dBm", labels, opt_i8_string(data.tx_power, 0));
            proof {
                lemma_extend(start, a + b + c + d, e, l);
            }
        },
        Reading::V6(data) => {
            let ghost a = environmental_metrics(data.sequence, data.temperature, data.humidity, data.pressure);
            let ghost b = air_quality_metrics(data.pm2_5, data.co2, data.voc_index, data.nox_index, data.luminosity);
            add_common_environmental_metrics(metrics, labels, data.sequence, data.temperature, data.humidity, data.pressure);
            add_air_quality_metrics(metrics, labels, data.pm2_5, data.co2, data.voc_index, data.nox_index, data.luminosity);
            proof {
                lemma_extend(start, a, b, l);
            }
        },
        Reading::E1(data) => {
            let ghost a = environmental_metrics(data.sequence, data.temperature, data.humidity, data.pressure);
            let ghost b = opt_metric(MetricField::Pm1_0, opt_decimal(opt_u32(data.pm1_0), 3));
            let ghost c = opt_metric(MetricField::Pm4_0, opt_decimal(opt_u32(data.pm4_0), 3));
            let ghost d = opt_metric(MetricField::Pm10_0, opt_decimal(opt_u32(data.pm10_0), 3));
            let ghost e = air_quality_metrics(data.pm2_5, data.co2, data.voc_index, data.nox_index, data.luminosity);
            add_common_environmental_metrics(metrics, labels, data.sequence, data.temperature, data.humidity, data.pressure);
            add_optional_metric(metrics, Ghost(MetricField::Pm1_0), "ruuvi_tag_pm1_0_ugm3", labels, opt_u32_string(data.pm1_0, 3));
            proof {
                lemma_extend(start, a, b, l);
            }
            add_optional_metric(metrics, Ghost(MetricField::Pm4_0), "ruuvi_tag_pm4_0_ugm3", labels, opt_u32_string(data.pm4_0, 3));
            proof {
                lemma_extend(start, a + b, c, l);
            }
            add_optional_metric(metrics, Ghost(MetricField::Pm10_0), "ruuvi_tag_pm10_0_ugm3", labels, opt_u32_string(data.pm10_0, 3));
            proof {
                lemma_extend(start, a + b + c, d, l);
            }
            add_air_quality_metrics(metrics, labels, data.pm2_5, data.co2, data.voc_index, data.nox_index, data.luminosity);
            proof {
                lemma_extend(start, a + b + c + d, e, l);
            }
        },
    }
}

fn add_tag_metrics(metrics: &mut String, labels: &LabelSet, tag: &Tag)
    ensures
        final(metrics)@ == old(metrics)@ + lines_text(tag_metrics(*tag), labels@),
{
    let ghost l = labels@;
    let ghost start = metrics@;
    let ghost a = seq![(MetricField::LastSeen, int_text(tag.last_seen as int))];
    let ghost b = reading_metrics(tag.values);
    let ghost c = seq![(MetricField::Rssi, int_text(tag.rssi as int))];
    add_metric(metrics, "ruuvi_tag_last_seen_timestamp_seconds", labels, unsigned_string(tag.last_seen, 0));
    proof {
        lemma_lines_single(a[0], l);
    }
    add_reading_metrics(metrics, labels, &tag.values);
    proof {
        lemma_extend(start, a, b, l);
    }
    add_metric(metrics, "ruuvi_tag_rssi_dBm", labels, signed_string(tag.rssi as i64, 0));
    proof {
        lemma_lines_single(c[0], l);
        lemma_extend(start, a + b, c, l);
    }
}

/// The labels with `name` appended where the table has a label for `id`.
fn add_name_label(labels: LabelSet, id: &str, names: &MacMapping) -> (r: LabelSet)
    ensures
        r@ == with_name(labels@, id@, names.pairs()),
{
    proof {
        reveal_strlit("name");
    }
    match names.lookup(id) {
        Some(name) => labels.label("name", name),
        None => labels,
    }
}

/// Renders the state as the metrics document: the gateway's lines (update
/// time, then the nonce when known), then for each sensor in ascending order
/// of identifier its last-seen time, the reading's present fields in the
/// format's order and its signal strength. Every line ends with a line break.
pub fn collect_metrics(state: &Measurements, names: &MacMapping) -> (r: String)
    ensures
        r@ == document(state.last_update, state.last_nonce, state.mac@, state.tags.entries(), names.pairs()),
{
    let mut metrics = String::new();
    let gw_labels = add_name_label(labelset().label("gw_mac", state.mac.as_str()), state.mac.as_str(), names);
    proof {
        assert(seq![("gw_mac"@, state.mac@)] =~= Seq::<LabelView>::empty().push(("gw_mac"@, state.mac@)));
    }
    let ghost gl = gw_labels@;
    let ghost g0 = seq![(MetricField::GatewayUpdate, int_text(state.last_update as int))];
    let ghost g1 = opt_metric(MetricField::GatewayNonce, match state.last_nonce {
        Some(n) => Some(int_text(n as int)),
        None => None,
    });
    add_metric(&mut metrics, "ruuvi_gateway_update_timestamp_seconds", &gw_labels, unsigned_string(state.last_update, 0));
    proof {
        lemma_lines_single(g0[0], gl);
    }
    let nonce = match state.last_nonce {
        Some(n) => Some(unsigned_string(n, 0)),
        None => None,
    };
    add_optional_metric(&mut metrics, Ghost(MetricField::GatewayNonce), "ruuvi_gateway_nonce", &gw_labels, nonce);
    proof {
        lemma_extend(Seq::<char>::empty(), g0, g1, gl);
        assert(metrics@ =~= lines_text(gateway_metrics(state.last_update, state.last_nonce), gl));
    }
    let ghost head = metrics@;
    let ghost es = state.tags.entries();
    let n = state.tags.len();
    let mut i: usize = 0;
    while i < n
        invariant
            n == es.len(),
            es == state.tags.entries(),
            i <= n,
            metrics@ == head + entries_text(es.subrange(0, i as int), state.mac@, names.pairs()),
        decreases n - i,
    {
        let entry = state.tags.entry(i);
        let mac = &entry.0;
        let tag = &entry.1;
        let labels = add_name_label(labelset().label("mac", mac.as_str()).label("gw_mac", state.mac.as_str()), mac.as_str(), names);
        proof {
            assert(seq![("mac"@, mac@), ("gw_mac"@, state.mac@)] =~= Seq::<LabelView>::empty().push(("mac"@, mac@)).push(("gw_mac"@, state.mac@)));
        }
        add_tag_metrics(&mut metrics, &labels, tag);
        proof {
            let sub = es.subrange(0, i + 1);
            assert(sub.drop_last() =~= es.subrange(0, i as int));
            assert(sub.last() == es[i as int]);
        }
        i = i + 1;
    }
    assert(es.subrange(0, n as int) =~= es);
    metrics
}

/// The document does not depend on the order in which two sensors' records
/// arrived.
pub proof fn lemma_document_independent_of_arrival(
    last_update: u64,
    last_nonce: Option<u64>,
    mac: Seq<char>,
    es: Seq<Entry>,
    names: Seq<NamePair>,
    a: Seq<char>,
    ta: Tag,
    b: Seq<char>,
    tb: Tag,
)
    requires
        keys_sorted(es),
        a != b,
    ensures
        document(last_update, last_nonce, mac, sorted_insert(sorted_insert(es, b, tb), a, ta), names)
            == document(last_update, last_nonce, mac, sorted_insert(sorted_insert(es, a, ta), b, tb), names),
{
    lemma_arrival_order_irrelevant(es, a, ta, b, tb);
}

/// Before any gateway message the document is the single line of the update
/// time, at the epoch.
pub proof fn lemma_document_before_ingestion(names: Seq<NamePair>)
    ensures
        document(0, None, Seq::<char>::empty(), Seq::<Entry>::empty(), names) == line_text(
            "ruuvi_gateway_update_timestamp_seconds"@,
            gateway_labels(Seq::<char>::empty(), names),
            seq!['0'],
        ) + seq!['\n'],
{
    let m = (MetricField::GatewayUpdate, int_text(0));
    assert(int_text(0) =~= seq!['0']) by {
        assert(crate::text::pow10(0) == 1);
        assert(crate::text::trim_fraction(0, 0) == (0nat, 0nat));
        assert(crate::text::nat_text(0) == seq!['0']);
    }
    assert(gateway_metrics(0, None) =~= seq![m]);
    lemma_lines_single(m, gateway_labels(Seq::<char>::empty(), names));
    assert(entries_text(Seq::<Entry>::empty(), Seq::<char>::empty(), names) == Seq::<char>::empty());
    assert(document(0, None, Seq::<char>::empty(), Seq::<Entry>::empty(), names) =~= line_text(
        "ruuvi_gateway_update_timestamp_seconds"@,
        gateway_labels(Seq::<char>::empty(), names),
        seq!['0'],
    ) + seq!['\n']);
}

pub open spec fn opt_axis(a: Option<(i16, i16, i16)>, axis: int) -> Option<Seq<char>> {
    match a {
        Some(v) => Some(decimal_text(if axis == 0 { v.0 as int } else if axis == 1 { v.1 as int } else { v.2 as int }, 3)),
        None => None,
    }
}

/// The rendered value of a field of a reading: `None` where the reading's
/// format has no such field or the sensor reported it unavailable.
pub open spec fn field_value(r: Reading, f: MetricField) -> Option<Seq<char>> {
    match r {
        Reading::V5(d) => match f {
            MetricField::SequenceNumber => opt_decimal(opt_u32(d.sequence), 0),
            MetricField::Temperature => opt_decimal(opt_i32(d.temperature), 3),
            MetricField::Humidity => opt_decimal(opt_u32(d.humidity), 6),
            MetricField::Pressure => opt_decimal(opt_u32(d.pressure), 0),
            MetricField::MovementCounter => opt_decimal(opt_u32(d.movement_counter), 0),
            MetricField::AccelerationX => opt_axis(d.acceleration, 0),
            MetricField::AccelerationY => opt_axis(d.acceleration, 1),
            MetricField::AccelerationZ => opt_axis(d.acceleration, 2),
            MetricField::Battery => opt_decimal(opt_u16(d.battery), 3),
            MetricField::TxPower => opt_decimal(opt_i8(d.tx_power), 0),
            _ => None,
        },
        Reading::V6(d) => match f {
            MetricField::SequenceNumber => opt_decimal(opt_u32(d.sequence), 0),
            MetricField::Temperature => opt_decimal(opt_i32(d.temperature), 3),
            MetricField::Humidity => opt_decimal(opt_u32(d.humidity), 6),
            MetricField::Pressure => opt_decimal(opt_u32(d.pressure), 0),
            MetricField::Pm2_5 => opt_decimal(opt_u32(d.pm2_5), 3),
            MetricField::Co2 => opt_decimal(opt_u16(d.co2), 0),
            MetricField::VocIndex => opt_decimal(opt_u16(d.voc_index), 0),
            MetricField::NoxIndex => opt_decimal(opt_u16(d.nox_index), 0),
            MetricField::Luminosity => opt_decimal(opt_u32(d.luminosity), 3),
            _ => None,
        },
        Reading::E1(d) => match f {
            MetricField::SequenceNumber => opt_decimal(opt_u32(d.sequence), 0),
            MetricField::Temperature => opt_decimal(opt_i32(d.temperature), 3),
            MetricField::Humidity => opt_decimal(opt_u32(d.humidity), 6),
            MetricField::Pressure => opt_decimal(opt_u32(d.pressure), 0),
            MetricField::Pm1_0 => opt_decimal(opt_u32(d.pm1_0), 3),
            MetricField::Pm2_5 => opt_decimal(opt_u32(d.pm2_5), 3),
            MetricField::Pm4_0 => opt_decimal(opt_u32(d.pm4_0), 3),
            MetricField::Pm10_0 => opt_decimal(opt_u32(d.pm10_0), 3),
            MetricField::Co2 => opt_decimal(opt_u16(d.co2), 0),
            MetricField::VocIndex => opt_decimal(opt_u16(d.voc_index), 0),
            MetricField::NoxIndex => opt_decimal(opt_u16(d.nox_index), 0),
            MetricField::Luminosity => opt_decimal(opt_u32(d.luminosity), 3),
            _ => None,
        },
    }
}

/// Every metric of the list renders a field that the reading has, with its value.
pub open spec fn all_rendered(r: Reading, ms: Seq<MetricPair>) -> bool {
    forall|i: int| 0 <= i < ms.len() ==> field_value(r, (#[trigger] ms[i]).0) == Some(ms[i].1)
}

proof fn lemma_all_rendered_concat(r: Reading, a: Seq<MetricPair>, b: Seq<MetricPair>)
    requires
        all_rendered(r, a),
        all_rendered(r, b),
    ensures
        all_rendered(r, a + b),
{
    assert forall|i: int| 0 <= i < (a + b).len() implies field_value(r, (#[trigger] (a + b)[i]).0) == Some((a + b)[i].1) by {
        if i < a.len() {
            assert((a + b)[i] == a[i]);
        } else {
            assert((a + b)[i] == b[i - a.len()]);
        }
    }
}

proof fn lemma_opt_rendered(r: Reading, f: MetricField, v: Option<Seq<char>>)
    requires
        field_value(r, f) == v,
    ensures
        all_rendered(r, opt_metric(f, v)),
{
}

proof fn lemma_environment_rendered(r: Reading, sequence: Option<u32>, temperature: Option<i32>, humidity: Option<u32>, pressure: Option<u32>)
    requires
        field_value(r, MetricField::SequenceNumber) == opt_decimal(opt_u32(sequence), 0),
        field_value(r, MetricField::Temperature) == opt_decimal(opt_i32(temperature), 3),
        field_value(r, MetricField::Humidity) == opt_decimal(opt_u32(humidity), 6),
        field_value(r, MetricField::Pressure) == opt_decimal(opt_u32(pressure), 0),
    ensures
        all_rendered(r, environmental_metrics(sequence, temperature, humidity, pressure)),
{
    let a = opt_metric(MetricField::SequenceNumber, opt_decimal(opt_u32(sequence), 0));
    let b = opt_metric(MetricField::Temperature, opt_decimal(opt_i32(temperature), 3));
    let c = opt_metric(MetricField::Humidity, opt_decimal(opt_u32(humidity), 6));
    let d = opt_metric(MetricField::Pressure, opt_decimal(opt_u32(pressure), 0));
    lemma_all_rendered_concat(r, a, b);
    lemma_all_rendered_concat(r, a + b, c);
    lemma_all_rendered_concat(r, a + b + c, d);
}

proof fn lemma_air_quality_rendered(r: Reading, pm2_5: Option<u32>, co2: Option<u16>, voc_index: Option<u16>, nox_index: Option<u16>, luminosity: Option<u32>)
    requires
        field_value(r, MetricField::Pm2_5) == opt_decimal(opt_u32(pm2_5), 3),
        field_value(r, MetricField::Co2) == opt_decimal(opt_u16(co2), 0),
        field_value(r, MetricField::VocIndex) == opt_decimal(opt_u16(voc_index), 0),
        field_value(r, MetricField::NoxIndex) == opt_decimal(opt_u16(nox_index), 0),
        field_value(r, MetricField::Luminosity) == opt_decimal(opt_u32(luminosity), 3),
    ensures
        all_rendered(r, air_quality_metrics(pm2_5, co2, voc_index, nox_index, luminosity)),
{
    let a = opt_metric(MetricField::Pm2_5, opt_decimal(opt_u32(pm2_5), 3));
    let b = opt_metric(MetricField::Co2, opt_decimal(opt_u16(co2), 0));
    let c = opt_metric(MetricField::VocIndex, opt_decimal(opt_u16(voc_index), 0));
    let d = opt_metric(MetricField::NoxIndex, opt_decimal(opt_u16(nox_index), 0));
    let e = opt_metric(MetricField::Luminosity, opt_decimal(opt_u32(luminosity), 3));
    lemma_all_rendered_concat(r, a, b);
    lemma_all_rendered_concat(r, a + b, c);
    lemma_all_rendered_concat(r, a + b + c, d);
    lemma_all_rendered_concat(r, a + b + c + d, e);
}

/// Each line of a reading renders a field that the reading has, with its
/// value; so a field that is unavailable, or that the format lacks, never
/// appears as a line.
pub proof fn lemma_only_present_fields_rendered(r: Reading)
    ensures
        all_rendered(r, reading_metrics(r)),
        forall|f: MetricField, i: int| #[trigger] field_value(r, f) is None && 0 <= i < reading_metrics(r).len()
            ==> (#[trigger] reading_metrics(r)[i]).0 != f,
{
    match r {
        Reading::V5(d) => {
            lemma_environment_rendered(r, d.sequence, d.temperature, d.humidity, d.pressure);
            let a = environmental_metrics(d.sequence, d.temperature, d.humidity, d.pressure);
            let b = opt_metric(MetricField::MovementCounter, opt_decimal(opt_u32(d.movement_counter), 0));
            let c = acceleration_metrics(d.acceleration);
            let e = opt_metric(MetricField::Battery, opt_decimal(opt_u16(d.battery), 3));
            let g = opt_metric(MetricField::TxPower, opt_decimal(opt_i8(d.tx_power), 0));
            assert(all_rendered(r, c));
            lemma_all_rendered_concat(r, a, b);
            lemma_all_rendered_concat(r, a + b, c);
            lemma_all_rendered_concat(r, a + b + c, e);
            lemma_all_rendered_concat(r, a + b + c + e, g);
        },
        Reading::V6(d) => {
            lemma_environment_rendered(r, d.sequence, d.temperature, d.humidity, d.pressure);
            lemma_air_quality_rendered(r, d.pm2_5, d.co2, d.voc_index, d.nox_index, d.luminosity);
            lemma_all_rendered_concat(
                r,
                environmental_metrics(d.sequence, d.temperature, d.humidity, d.pressure),
                air_quality_metrics(d.pm2_5, d.co2, d.voc_index, d.nox_index, d.luminosity),
            );
        },
        Reading::E1(d) => {
            lemma_environment_rendered(r, d.sequence, d.temperature, d.humidity, d.pressure);
            lemma_air_quality_rendered(r, d.pm2_5, d.co2, d.voc_index, d.nox_index, d.luminosity);
            let a = environmental_metrics(d.sequence, d.temperature, d.humidity, d.pressure);
            let b = opt_metric(MetricField::Pm1_0, opt_decimal(opt_u32(d.pm1_0), 3));
            let c = opt_metric(MetricField::Pm4_0, opt_decimal(opt_u32(d.pm4_0), 3));
            let e = opt_metric(MetricField::Pm10_0, opt_decimal(opt_u32(d.pm10_0), 3));
            let g = air_quality_metrics(d.pm2_5, d.co2, d.voc_index, d.nox_index, d.luminosity);
            lemma_all_rendered_concat(r, a, b);
            lemma_all_rendered_concat(r, a + b, c);
            lemma_all_rendered_concat(r, a + b + c, e);
            lemma_all_rendered_concat(r, a + b + c + e, g);
        },
    }
}

} // verus!
