//! History queries: one measurement out of each record of a time range.

use vstd::prelude::*;
use crate::telemetry::{str_equal, F64Bits, TelemetryPacket};

verus! {

/// The value of one field of a record.
#[derive(Clone, Copy, Debug, PartialEq, Eq, Structural)]
pub enum FieldValue {
    Integer(u64),
    Number(F64Bits),
    Flag(bool),
}

/// One point of the history of a measurement.
#[derive(Clone, Copy, Debug, PartialEq, Eq, Structural)]
pub struct Datum {
    /// The timestamp of the record.
    pub running_us: u64,
    /// The value of the measurement in that record, or `None` where the
    /// record has no field of the name asked for.
    pub value: Option<FieldValue>,
}

/// The field that goes by `key` on the wire to the user interface.
pub open spec fn field_of(packet: TelemetryPacket, key: Seq<char>) -> Option<FieldValue> {
    if key == "running_us"@ {
        Some(FieldValue::Integer(packet.running_us))
    } else if key == "tvc.x"@ {
        Some(FieldValue::Number(packet.tvc_x))
    } else if key == "tvc.z"@ {
        Some(FieldValue::Number(packet.tvc_z))
    } else if key == "tvc.angle"@ {
        Some(FieldValue::Number(packet.angle))
    } else if key == "proc.temp"@ {
        Some(FieldValue::Number(packet.temperature))
    } else if key == "voltage.sys"@ {
        Some(FieldValue::Number(packet.v_sys))
    } else if key == "voltage.bat"@ {
        Some(FieldValue::Number(packet.v_bat))
    } else if key == "proc.adc_offset"@ {
        Some(FieldValue::Integer(packet.offset as u64))
    } else if key == "usb.present"@ {
        Some(FieldValue::Flag(packet.v_bus_present))
    } else {
        None
    }
}

/// The point that `packet` adds to the history of the measurement `key`.
pub open spec fn datum_of(packet: TelemetryPacket, key: Seq<char>) -> Datum {
    Datum { running_us: packet.running_us, value: field_of(packet, key) }
}

/// Reads the field that goes by `key` out of `packet`.
pub fn field(packet: &TelemetryPacket, key: &str) -> (value: Option<FieldValue>)
    ensures
        value == field_of(*packet, key@),
{
    if str_equal(key, "running_us") {
        Some(FieldValue::Integer(packet.running_us))
    } else if str_equal(key, "tvc.x") {
        Some(FieldValue::Number(packet.tvc_x))
    } else if str_equal(key, "tvc.z") {
        Some(FieldValue::Number(packet.tvc_z))
    } else if str_equal(key, "tvc.angle") {
        Some(FieldValue::Number(packet.angle))
    } else if str_equal(key, "proc.temp") {
        Some(FieldValue::Number(packet.temperature))
    } else if str_equal(key, "voltage.sys") {
        Some(FieldValue::Number(packet.v_sys))
    } else if str_equal(key, "voltage.bat") {
        Some(FieldValue::Number(packet.v_bat))
    } else if str_equal(key, "proc.adc_offset") {
        Some(FieldValue::Integer(packet.offset as u64))
    } else if str_equal(key, "usb.present") {
        Some(FieldValue::Flag(packet.v_bus_present))
    } else {
        None
    }
}

/// The history of the measurement `key` over `records`: one point for each
/// record, in the order of the records.
pub fn get_datum(records: &Vec<TelemetryPacket>, key: &str) -> (data: Vec<Datum>)
    ensures
        data@ == records@.map_values(|packet: TelemetryPacket| datum_of(packet, key@)),
{
    let mut data: Vec<Datum> = Vec::new();
    let mut i: usize = 0;
    while i < records.len()
        invariant
            i <= records.len(),
            data@ == records@.take(i as int).map_values(
                |packet: TelemetryPacket| datum_of(packet, key@),
            ),
        decreases records.len() - i,
    {
        let packet = &records[i];
        data.push(Datum { running_us: packet.running_us, value: field(packet, key) });
        assert(records@.take(i + 1).map_values(|packet: TelemetryPacket| datum_of(packet, key@))
            =~= records@.take(i as int).map_values(
            |packet: TelemetryPacket| datum_of(packet, key@),
        ).push(datum_of(records@[i as int], key@)));
        i = i + 1;
    }
    assert(records@.take(i as int) =~= records@);
    data
}

} // verus!
