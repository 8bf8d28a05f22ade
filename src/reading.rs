//! Decoding of the vendor-specific advertisement payload into typed readings.
//!
//! The field values are integers in the units of the protocol crates:
//! milli-degrees Celsius, parts per million of relative humidity, pascals,
//! milli-g, millivolts, dBm, nanograms per cubic metre and millilux from
//! `ruuvi_sensor_protocol`; the nine-bit VOC and NOx indices from
//! `ruuvi_decoders`, which reads the high eight bits from the index byte and
//! the low bit from the flags byte.

use vstd::prelude::*;
use crate::rw_message::{scan, structures, structure_view, AdMessage, AdMessageParseError, StructureView};
use ruuvi_decoders::RuuviData;
use ruuvi_sensor_protocol::{
    Acceleration, BatteryPotential, CarbonDioxide, Humidity, Luminosity, MeasurementSequenceNumber,
    MovementCounter, ParticulateMatter, Pressure, SensorValues, Temperature, TransmitterPower,
};

verus! {

/// Type code of a manufacturer-specific advertisement structure.
pub const MANUFACTURER_SPECIFIC_DATA: u8 = 0xff;

/// The sensor vendor's identifier, read little-endian from the first two
/// payload bytes.
pub const RUUVI_MANUFACTURER_ID: u16 = 0x0499;

/// Format tag of the environment, motion and power record.
pub const FORMAT_V5: u8 = 5;
/// Format tag of the compact air-quality record.
pub const FORMAT_V6: u8 = 6;
/// Format tag of the extended air-quality record.
pub const FORMAT_E1: u8 = 0xE1;
/// Record sizes, tag byte included.
pub const V5_LEN: usize = 24;
pub const V6_LEN: usize = 20;
pub const E1_LEN: usize = 40;

/// Readings of format 5: environment, motion and power.
#[derive(Debug, Clone, Copy, PartialEq, Eq)]
pub struct V5Reading {
    /// Milli-degrees Celsius.
    pub temperature: Option<i32>,
    /// Relative humidity in parts per million.
    pub humidity: Option<u32>,
    /// Pascals.
    pub pressure: Option<u32>,
    /// The x, y and z axes in milli-g, all present or none.
    pub acceleration: Option<(i16, i16, i16)>,
    /// Millivolts.
    pub battery: Option<u16>,
    /// Transmit power in dBm.
    pub tx_power: Option<i8>,
    pub movement_counter: Option<u32>,
    pub sequence: Option<u32>,
}

/// Readings of format 6: environment and air quality.
#[derive(Debug, Clone, Copy, PartialEq, Eq)]
pub struct V6Reading {
    /// Milli-degrees Celsius.
    pub temperature: Option<i32>,
    /// Relative humidity in parts per million.
    pub humidity: Option<u32>,
    /// Pascals.
    pub pressure: Option<u32>,
    /// Nanograms per cubic metre.
    pub pm2_5: Option<u32>,
    /// Parts per million.
    pub co2: Option<u16>,
    pub voc_index: Option<u16>,
    pub nox_index: Option<u16>,
    /// Millilux.
    pub luminosity: Option<u32>,
    pub sequence: Option<u32>,
}

/// Readings of the extended format E1: environment, four particulate sizes
/// and air quality.
#[derive(Debug, Clone, Copy, PartialEq, Eq)]
pub struct E1Reading {
    /// Milli-degrees Celsius.
    pub temperature: Option<i32>,
    /// Relative humidity in parts per million.
    pub humidity: Option<u32>,
    /// Pascals.
    pub pressure: Option<u32>,
    /// Nanograms per cubic metre.
    pub pm1_0: Option<u32>,
    /// Nanograms per cubic metre.
    pub pm2_5: Option<u32>,
    /// Nanograms per cubic metre.
    pub pm4_0: Option<u32>,
    /// Nanograms per cubic metre.
    pub pm10_0: Option<u32>,
    /// Parts per million.
    pub co2: Option<u16>,
    pub voc_index: Option<u16>,
    pub nox_index: Option<u16>,
    /// Millilux.
    pub luminosity: Option<u32>,
    pub sequence: Option<u32>,
}

/// A decoded payload, tagged by its format. An absent field is `None`.
#[derive(Debug, Clone, Copy, PartialEq, Eq)]
pub enum Reading {
    V5(V5Reading),
    V6(V6Reading),
    E1(E1Reading),
}

/// Why a vendor payload was not decoded.
#[derive(Debug, Clone, Copy, PartialEq, Eq)]
pub enum ReadingError {
    /// The payload holds no format tag.
    Empty,
    /// The format tag names no known layout.
    UnsupportedFormat(u8),
    /// The record's size does not match its format.
    InvalidLength { format: u8, length: usize, expected: usize },
}

// What `ruuvi_sensor_protocol` reports for a manufacturer id and payload,
// field by field: `None` where the id is not the vendor's, the record's tag
// or size is not one the crate knows, or the sensor marked the measurement
// unavailable. Each is a function of its arguments alone.
pub uninterp spec fn protocol_temperature(id: u16, payload: Seq<u8>) -> Option<i32>;
pub uninterp spec fn protocol_humidity(id: u16, payload: Seq<u8>) -> Option<u32>;
pub uninterp spec fn protocol_pressure(id: u16, payload: Seq<u8>) -> Option<u32>;
pub uninterp spec fn protocol_acceleration(id: u16, payload: Seq<u8>) -> Option<(i16, i16, i16)>;
pub uninterp spec fn protocol_battery(id: u16, payload: Seq<u8>) -> Option<u16>;
pub uninterp spec fn protocol_tx_power(id: u16, payload: Seq<u8>) -> Option<i8>;
pub uninterp spec fn protocol_movement_counter(id: u16, payload: Seq<u8>) -> Option<u32>;
pub uninterp spec fn protocol_sequence(id: u16, payload: Seq<u8>) -> Option<u32>;
pub uninterp spec fn protocol_pm1_0(id: u16, payload: Seq<u8>) -> Option<u32>;
pub uninterp spec fn protocol_pm2_5(id: u16, payload: Seq<u8>) -> Option<u32>;
pub uninterp spec fn protocol_pm4_0(id: u16, payload: Seq<u8>) -> Option<u32>;
pub uninterp spec fn protocol_pm10_0(id: u16, payload: Seq<u8>) -> Option<u32>;
pub uninterp spec fn protocol_co2(id: u16, payload: Seq<u8>) -> Option<u16>;
pub uninterp spec fn decoded_voc_index(payload: Seq<u8>) -> Option<u16>;
pub uninterp spec fn decoded_nox_index(payload: Seq<u8>) -> Option<u16>;
pub uninterp spec fn protocol_luminosity(id: u16, payload: Seq<u8>) -> Option<u32>;

/// Relies on `SensorValues::from_manufacturer_specific_data` and
/// `Temperature::temperature_as_millicelsius`: milli-degrees Celsius.
#[verifier::external_body]
fn read_temperature(id: u16, payload: &[u8]) -> (r: Option<i32>)
    ensures
        r == protocol_temperature(id, payload@),
{
    SensorValues::from_manufacturer_specific_data(id, payload).ok()?.temperature_as_millicelsius()
}

/// Relies on `SensorValues::from_manufacturer_specific_data` and
/// `Humidity::humidity_as_ppm`: relative humidity in parts per million.
#[verifier::external_body]
fn read_humidity(id: u16, payload: &[u8]) -> (r: Option<u32>)
    ensures
        r == protocol_humidity(id, payload@),
{
    SensorValues::from_manufacturer_specific_data(id, payload).ok()?.humidity_as_ppm()
}

/// Relies on `SensorValues::from_manufacturer_specific_data` and
/// `Pressure::pressure_as_pascals`: pressure in pascals.
#[verifier::external_body]
fn read_pressure(id: u16, payload: &[u8]) -> (r: Option<u32>)
    ensures
        r == protocol_pressure(id, payload@),
{
    SensorValues::from_manufacturer_specific_data(id, payload).ok()?.pressure_as_pascals()
}

/// Relies on `SensorValues::from_manufacturer_specific_data` and
/// `Acceleration::acceleration_vector_as_milli_g`: the three axes in milli-g,
/// present together or not at all.
#[verifier::external_body]
fn read_acceleration(id: u16, payload: &[u8]) -> (r: Option<(i16, i16, i16)>)
    ensures
        r == protocol_acceleration(id, payload@),
{
    let values = SensorValues::from_manufacturer_specific_data(id, payload).ok()?;
    values.acceleration_vector_as_milli_g().map(|a| (a.0, a.1, a.2))
}

/// Relies on `SensorValues::from_manufacturer_specific_data` and
/// `BatteryPotential::battery_potential_as_millivolts`: battery in millivolts.
#[verifier::external_body]
fn read_battery(id: u16, payload: &[u8]) -> (r: Option<u16>)
    ensures
        r == protocol_battery(id, payload@),
{
    SensorValues::from_manufacturer_specific_data(id, payload).ok()?.battery_potential_as_millivolts()
}

/// Relies on `SensorValues::from_manufacturer_specific_data` and
/// `TransmitterPower::tx_power_as_dbm`: transmit power in dBm.
#[verifier::external_body]
fn read_tx_power(id: u16, payload: &[u8]) -> (r: Option<i8>)
    ensures
        r == protocol_tx_power(id, payload@),
{
    SensorValues::from_manufacturer_specific_data(id, payload).ok()?.tx_power_as_dbm()
}

/// Relies on `SensorValues::from_manufacturer_specific_data` and
/// `MovementCounter::movement_counter`.
#[verifier::external_body]
fn read_movement_counter(id: u16, payload: &[u8]) -> (r: Option<u32>)
    ensures
        r == protocol_movement_counter(id, payload@),
{
    SensorValues::from_manufacturer_specific_data(id, payload).ok()?.movement_counter()
}

/// Relies on `SensorValues::from_manufacturer_specific_data` and
/// `MeasurementSequenceNumber::measurement_sequence_number`.
#[verifier::external_body]
fn read_sequence(id: u16, payload: &[u8]) -> (r: Option<u32>)
    ensures
        r == protocol_sequence(id, payload@),
{
    SensorValues::from_manufacturer_specific_data(id, payload).ok()?.measurement_sequence_number()
}

/// Relies on `SensorValues::from_manufacturer_specific_data` and
/// `ParticulateMatter::pm1_0_as_nanograms_per_cubic_meter`.
#[verifier::external_body]
fn read_pm1_0(id: u16, payload: &[u8]) -> (r: Option<u32>)
    ensures
        r == protocol_pm1_0(id, payload@),
{
    SensorValues::from_manufacturer_specific_data(id, payload).ok()?.pm1_0_as_nanograms_per_cubic_meter()
}

/// Relies on `SensorValues::from_manufacturer_specific_data` and
/// `ParticulateMatter::pm2_5_as_nanograms_per_cubic_meter`.
#[verifier::external_body]
fn read_pm2_5(id: u16, payload: &[u8]) -> (r: Option<u32>)
    ensures
        r == protocol_pm2_5(id, payload@),
{
    SensorValues::from_manufacturer_specific_data(id, payload).ok()?.pm2_5_as_nanograms_per_cubic_meter()
}

/// Relies on `SensorValues::from_manufacturer_specific_data` and
/// `ParticulateMatter::pm4_0_as_nanograms_per_cubic_meter`.
#[verifier::external_body]
fn read_pm4_0(id: u16, payload: &[u8]) -> (r: Option<u32>)
    ensures
        r == protocol_pm4_0(id, payload@),
{
    SensorValues::from_manufacturer_specific_data(id, payload).ok()?.pm4_0_as_nanograms_per_cubic_meter()
}

/// Relies on `SensorValues::from_manufacturer_specific_data` and
/// `ParticulateMatter::pm10_0_as_nanograms_per_cubic_meter`.
#[verifier::external_body]
fn read_pm10_0(id: u16, payload: &[u8]) -> (r: Option<u32>)
    ensures
        r == protocol_pm10_0(id, payload@),
{
    SensorValues::from_manufacturer_specific_data(id, payload).ok()?.pm10_0_as_nanograms_per_cubic_meter()
}

/// Relies on `SensorValues::from_manufacturer_specific_data` and
/// `CarbonDioxide::carbon_dioxide_as_ppm`.
#[verifier::external_body]
fn read_co2(id: u16, payload: &[u8]) -> (r: Option<u16>)
    ensures
        r == protocol_co2(id, payload@),
{
    SensorValues::from_manufacturer_specific_data(id, payload).ok()?.carbon_dioxide_as_ppm()
}

/// Relies on `ruuvi_decoders::RuuviData::decode`: the VOC index of a format
/// 6 or E1 record, a function of the payload bytes. The call indexes the
/// first byte, so the payload is not empty.
#[verifier::external_body]
fn read_voc_index(payload: &[u8]) -> (r: Option<u16>)
    requires
        payload@.len() > 0,
    ensures
        r == decoded_voc_index(payload@),
{
    match RuuviData::decode(payload) {
        Ok(RuuviData::V5(_)) => None,
        Ok(RuuviData::V6(d)) => d.voc_index,
        Ok(RuuviData::E1(d)) => d.voc_index,
        Err(_) => None,
    }
}

/// Relies on `ruuvi_decoders::RuuviData::decode`: the NOx index of a format
/// 6 or E1 record, a function of the payload bytes. The call indexes the
/// first byte, so the payload is not empty.
#[verifier::external_body]
fn read_nox_index(payload: &[u8]) -> (r: Option<u16>)
    requires
        payload@.len() > 0,
    ensures
        r == decoded_nox_index(payload@),
{
    match RuuviData::decode(payload) {
        Ok(RuuviData::V5(_)) => None,
        Ok(RuuviData::V6(d)) => d.nox_index,
        Ok(RuuviData::E1(d)) => d.nox_index,
        Err(_) => None,
    }
}

/// Relies on `SensorValues::from_manufacturer_specific_data` and
/// `Luminosity::luminosity_as_millilux`.
#[verifier::external_body]
fn read_luminosity(id: u16, payload: &[u8]) -> (r: Option<u32>)
    ensures
        r == protocol_luminosity(id, payload@),
{
    SensorValues::from_manufacturer_specific_data(id, payload).ok()?.luminosity_as_millilux()
}

/// The reading that a vendor payload (format tag first, vendor id removed)
/// decodes to.
pub open spec fn reading_of(p: Seq<u8>) -> Result<Reading, ReadingError> {
    if p.len() == 0 {
        Err(ReadingError::Empty)
    } else if p[0] == FORMAT_V5 {
        if p.len() == V5_LEN {
            Ok(Reading::V5(V5Reading {
                temperature: protocol_temperature(RUUVI_MANUFACTURER_ID, p),
                humidity: protocol_humidity(RUUVI_MANUFACTURER_ID, p),
                pressure: protocol_pressure(RUUVI_MANUFACTURER_ID, p),
                acceleration: protocol_acceleration(RUUVI_MANUFACTURER_ID, p),
                battery: protocol_battery(RUUVI_MANUFACTURER_ID, p),
                tx_power: protocol_tx_power(RUUVI_MANUFACTURER_ID, p),
                movement_counter: protocol_movement_counter(RUUVI_MANUFACTURER_ID, p),
                sequence: protocol_sequence(RUUVI_MANUFACTURER_ID, p),
            }))
        } else {
            Err(ReadingError::InvalidLength { format: FORMAT_V5, length: p.len() as usize, expected: V5_LEN })
        }
    } else if p[0] == FORMAT_V6 {
        if p.len() == V6_LEN {
            Ok(Reading::V6(V6Reading {
                temperature: protocol_temperature(RUUVI_MANUFACTURER_ID, p),
                humidity: protocol_humidity(RUUVI_MANUFACTURER_ID, p),
                pressure: protocol_pressure(RUUVI_MANUFACTURER_ID, p),
                pm2_5: protocol_pm2_5(RUUVI_MANUFACTURER_ID, p),
                co2: protocol_co2(RUUVI_MANUFACTURER_ID, p),
                voc_index: decoded_voc_index(p),
                nox_index: decoded_nox_index(p),
                luminosity: protocol_luminosity(RUUVI_MANUFACTURER_ID, p),
                sequence: protocol_sequence(RUUVI_MANUFACTURER_ID, p),
            }))
        } else {
            Err(ReadingError::InvalidLength { format: FORMAT_V6, length: p.len() as usize, expected: V6_LEN })
        }
    } else if p[0] == FORMAT_E1 {
        if p.len() == E1_LEN {
            Ok(Reading::E1(E1Reading {
                temperature: protocol_temperature(RUUVI_MANUFACTURER_ID, p),
                humidity: protocol_humidity(RUUVI_MANUFACTURER_ID, p),
                pressure: protocol_pressure(RUUVI_MANUFACTURER_ID, p),
                pm1_0: protocol_pm1_0(RUUVI_MANUFACTURER_ID, p),
                pm2_5: protocol_pm2_5(RUUVI_MANUFACTURER_ID, p),
                pm4_0: protocol_pm4_0(RUUVI_MANUFACTURER_ID, p),
                pm10_0: protocol_pm10_0(RUUVI_MANUFACTURER_ID, p),
                co2: protocol_co2(RUUVI_MANUFACTURER_ID, p),
                voc_index: decoded_voc_index(p),
                nox_index: decoded_nox_index(p),
                luminosity: protocol_luminosity(RUUVI_MANUFACTURER_ID, p),
                sequence: protocol_sequence(RUUVI_MANUFACTURER_ID, p),
            }))
        } else {
            Err(ReadingError::InvalidLength { format: FORMAT_E1, length: p.len() as usize, expected: E1_LEN })
        }
    } else {
        Err(ReadingError::UnsupportedFormat(p[0]))
    }
}

/// Decodes a vendor payload: its first byte selects the layout, whose size is
/// fixed.
pub fn decode_reading(payload: &[u8]) -> (r: Result<Reading, ReadingError>)
    ensures
        r == reading_of(payload@),
{
    let n = payload.len();
    if n == 0 {
        return Err(ReadingError::Empty);
    }
    let format = payload[0];
    if format == FORMAT_V5 {
        if n != V5_LEN {
            return Err(ReadingError::InvalidLength { format, length: n, expected: V5_LEN });
        }
        Ok(Reading::V5(V5Reading {
            temperature: read_temperature(RUUVI_MANUFACTURER_ID, payload),
            humidity: read_humidity(RUUVI_MANUFACTURER_ID, payload),
            pressure: read_pressure(RUUVI_MANUFACTURER_ID, payload),
            acceleration: read_acceleration(RUUVI_MANUFACTURER_ID, payload),
            battery: read_battery(RUUVI_MANUFACTURER_ID, payload),
            tx_power: read_tx_power(RUUVI_MANUFACTURER_ID, payload),
            movement_counter: read_movement_counter(RUUVI_MANUFACTURER_ID, payload),
            sequence: read_sequence(RUUVI_MANUFACTURER_ID, payload),
        }))
    } else if format == FORMAT_V6 {
        if n != V6_LEN {
            return Err(ReadingError::InvalidLength { format, length: n, expected: V6_LEN });
        }
        Ok(Reading::V6(V6Reading {
            temperature: read_temperature(RUUVI_MANUFACTURER_ID, payload),
            humidity: read_humidity(RUUVI_MANUFACTURER_ID, payload),
            pressure: read_pressure(RUUVI_MANUFACTURER_ID, payload),
            pm2_5: read_pm2_5(RUUVI_MANUFACTURER_ID, payload),
            co2: read_co2(RUUVI_MANUFACTURER_ID, payload),
            voc_index: read_voc_index(payload),
            nox_index: read_nox_index(payload),
            luminosity: read_luminosity(RUUVI_MANUFACTURER_ID, payload),
            sequence: read_sequence(RUUVI_MANUFACTURER_ID, payload),
        }))
    } else if format == FORMAT_E1 {
        if n != E1_LEN {
            return Err(ReadingError::InvalidLength { format, length: n, expected: E1_LEN });
        }
        Ok(Reading::E1(E1Reading {
            temperature: read_temperature(RUUVI_MANUFACTURER_ID, payload),
            humidity: read_humidity(RUUVI_MANUFACTURER_ID, payload),
            pressure: read_pressure(RUUVI_MANUFACTURER_ID, payload),
            pm1_0: read_pm1_0(RUUVI_MANUFACTURER_ID, payload),
            pm2_5: read_pm2_5(RUUVI_MANUFACTURER_ID, payload),
            pm4_0: read_pm4_0(RUUVI_MANUFACTURER_ID, payload),
            pm10_0: read_pm10_0(RUUVI_MANUFACTURER_ID, payload),
            co2: read_co2(RUUVI_MANUFACTURER_ID, payload),
            voc_index: read_voc_index(payload),
            nox_index: read_nox_index(payload),
            luminosity: read_luminosity(RUUVI_MANUFACTURER_ID, payload),
            sequence: read_sequence(RUUVI_MANUFACTURER_ID, payload),
        }))
    } else {
        Err(ReadingError::UnsupportedFormat(format))
    }
}

/// The vendor payload of a structure: for a manufacturer-specific structure
/// whose first two bytes name the vendor (little-endian), the bytes after them.
pub open spec fn vendor_payload(item: StructureView) -> Option<Seq<u8>> {
    match item {
        Ok(m) => {
            if m.0 == MANUFACTURER_SPECIFIC_DATA && m.1.len() >= 2 && m.1[0] as int + 256 * (
            m.1[1] as int) == RUUVI_MANUFACTURER_ID as int {
                Some(m.1.subrange(2, m.1.len() as int))
            } else {
                None
            }
        },
        Err(_) => None,
    }
}

/// The vendor payloads among the structures, in structure order.
pub open spec fn vendor_payloads(items: Seq<StructureView>) -> Seq<Seq<u8>>
    decreases items.len(),
{
    if items.len() == 0 {
        Seq::<Seq<u8>>::empty()
    } else {
        let init = vendor_payloads(items.drop_last());
        match vendor_payload(items.last()) {
            Some(p) => init.push(p),
            None => init,
        }
    }
}

/// The reading of the last candidate that decodes; `None` when none does.
pub open spec fn last_reading(cands: Seq<Seq<u8>>) -> Option<Reading>
    decreases cands.len(),
{
    if cands.len() == 0 {
        None
    } else {
        match reading_of(cands.last()) {
            Ok(r) => Some(r),
            Err(_) => last_reading(cands.drop_last()),
        }
    }
}

/// The candidates that do not decode, in order.
pub open spec fn rejected_payloads(cands: Seq<Seq<u8>>) -> Seq<Seq<u8>>
    decreases cands.len(),
{
    if cands.len() == 0 {
        Seq::<Seq<u8>>::empty()
    } else {
        let init = rejected_payloads(cands.drop_last());
        if reading_of(cands.last()) is Ok {
            init
        } else {
            init.push(cands.last())
        }
    }
}

/// The vendor payloads of an advertisement buffer.
pub open spec fn advertisement_candidates(data: Seq<u8>) -> Seq<Seq<u8>> {
    vendor_payloads(structures(data))
}

/// What one advertisement yields: whether any structure carried the vendor's
/// data, the reading of the last one that decoded, and the vendor payloads
/// that did not decode (for reporting).
pub struct AdvertisementDecode {
    pub vendor_found: bool,
    pub reading: Option<Reading>,
    pub rejected: Vec<Vec<u8>>,
}

fn vendor_payload_of(m: &AdMessage) -> (r: Option<Vec<u8>>)
    ensures
        r is None <==> vendor_payload(Ok((m.ad_type, m.payload@))) is None,
        r is Some ==> vendor_payload(Ok((m.ad_type, m.payload@))) == Some(r->0@),
{
    let n = m.payload.len();
    if m.ad_type != MANUFACTURER_SPECIFIC_DATA || n < 2 {
        return None;
    }
    let id: u16 = m.payload[0] as u16 + 256 * (m.payload[1] as u16);
    if id != RUUVI_MANUFACTURER_ID {
        return None;
    }
    let rest = vstd::slice::slice_to_vec(vstd::slice::slice_subrange(m.payload.as_slice(), 2, n));
    assert(m.payload@[0] as int + 256 * (m.payload@[1] as int) == RUUVI_MANUFACTURER_ID as int);
    Some(rest)
}

/// Scans an advertisement, keeps the vendor's structures and decodes each;
/// the last one that decodes gives the reading.
pub fn decode_advertisement(data: &[u8]) -> (r: AdvertisementDecode)
    ensures
        r.vendor_found == (advertisement_candidates(data@).len() > 0),
        r.reading == last_reading(advertisement_candidates(data@)),
        r.rejected@.map_values(|v: Vec<u8>| v@) == rejected_payloads(
            advertisement_candidates(data@),
        ),
{
    let items = scan(data);
    let ghost views = items@.map_values(|m: Result<AdMessage, AdMessageParseError>| structure_view(m));
    let mut vendor_found = false;
    let mut reading: Option<Reading> = None;
    let mut rejected: Vec<Vec<u8>> = Vec::new();
    let mut i: usize = 0;
    while i < items.len()
        invariant
            i <= items@.len(),
            views == items@.map_values(|m: Result<AdMessage, AdMessageParseError>| structure_view(m)),
            vendor_found == (vendor_payloads(views.subrange(0, i as int)).len() > 0),
            reading == last_reading(vendor_payloads(views.subrange(0, i as int))),
            rejected@.map_values(|v: Vec<u8>| v@) == rejected_payloads(
                vendor_payloads(views.subrange(0, i as int)),
            ),
        decreases items@.len() - i,
    {
        let ghost cands = vendor_payloads(views.subrange(0, i as int));
        let ghost done = rejected@;
        assert(views.subrange(0, i + 1).drop_last() =~= views.subrange(0, i as int));
        assert(views.subrange(0, i + 1).last() == views[i as int]);
        if let Ok(m) = &items[i] {
            assert(views[i as int] == Ok::<(u8, Seq<u8>), ()>((m.ad_type, m.payload@)));
            if let Some(p) = vendor_payload_of(m) {
                vendor_found = true;
                assert(cands.push(p@).drop_last() =~= cands);
                match decode_reading(p.as_slice()) {
                    Ok(rd) => {
                        reading = Some(rd);
                    },
                    Err(_) => {
                        rejected.push(p);
                        assert(rejected@.map_values(|v: Vec<u8>| v@) =~= done.map_values(
                            |v: Vec<u8>| v@,
                        ).push(p@));
                    },
                }
            }
        }
        i = i + 1;
    }
    assert(views.subrange(0, i as int) =~= views);
    AdvertisementDecode { vendor_found, reading, rejected }
}

/// The reading comes from the last vendor payload that decodes: every later
/// payload fails to decode. There is no reading exactly when none decodes.
pub proof fn lemma_last_decoded_wins(cands: Seq<Seq<u8>>)
    ensures
        last_reading(cands) is None <==> forall|j: int| 0 <= j < cands.len() ==> reading_of(
            cands[j],
        ) is Err,
        last_reading(cands) is Some ==> exists|i: int|
            0 <= i < cands.len() && reading_of(cands[i]) == Ok::<Reading, ReadingError>(
                last_reading(cands)->0,
            ) && forall|j: int| i < j < cands.len() ==> reading_of(cands[j]) is Err,
    decreases cands.len(),
{
    if cands.len() > 0 {
        let init = cands.drop_last();
        lemma_last_decoded_wins(init);
        let n = cands.len() - 1;
        if reading_of(cands.last()) is Ok {
            assert(reading_of(cands[n]) is Ok);
        } else {
            assert forall|j: int| 0 <= j < n implies cands[j] == init[j] by {}
            if last_reading(init) is Some {
                let i = choose|i: int|
                    0 <= i < init.len() && reading_of(init[i]) == Ok::<Reading, ReadingError>(
                        last_reading(init)->0,
                    ) && forall|j: int| i < j < init.len() ==> reading_of(init[j]) is Err;
                assert(cands[i] == init[i]);
                assert forall|j: int| i < j < cands.len() implies reading_of(cands[j]) is Err by {
                    if j < n {
                        assert(cands[j] == init[j]);
                    }
                }
            } else {
                assert forall|j: int| 0 <= j < cands.len() implies reading_of(cands[j]) is Err by {
                    if j < n {
                        assert(cands[j] == init[j]);
                    }
                }
            }
        }
    }
}

/// Of two vendor structures in one advertisement, the later one gives the
/// reading whenever it decodes.
pub proof fn lemma_second_vendor_structure_wins(data: Seq<u8>)
    requires
        advertisement_candidates(data).len() == 2,
        reading_of(advertisement_candidates(data)[1]) is Ok,
    ensures
        last_reading(advertisement_candidates(data)) == Some(
            reading_of(advertisement_candidates(data)[1])->Ok_0,
        ),
{
    let c = advertisement_candidates(data);
    assert(c.last() == c[1]);
}

} // verus!
