use ground_station::history::{field, get_datum, Datum, FieldValue};
use ground_station::telemetry::{F64Bits, TelemetryPacket};

fn number(value: f64) -> F64Bits {
    F64Bits::from_bits(value.to_bits())
}

fn record(running_us: u64) -> TelemetryPacket {
    TelemetryPacket {
        running_us,
        tvc_x: number(1.0),
        tvc_z: number(2.0),
        angle: number(3.0),
        temperature: number(4.0),
        v_sys: number(5.0),
        v_bat: number(6.0),
        offset: 7,
        v_bus_present: true,
    }
}

#[test]
fn every_field_goes_by_its_wire_name() {
    let packet = record(99);
    assert_eq!(field(&packet, "running_us"), Some(FieldValue::Integer(99)));
    assert_eq!(field(&packet, "tvc.x"), Some(FieldValue::Number(number(1.0))));
    assert_eq!(field(&packet, "tvc.z"), Some(FieldValue::Number(number(2.0))));
    assert_eq!(field(&packet, "tvc.angle"), Some(FieldValue::Number(number(3.0))));
    assert_eq!(field(&packet, "proc.temp"), Some(FieldValue::Number(number(4.0))));
    assert_eq!(field(&packet, "voltage.sys"), Some(FieldValue::Number(number(5.0))));
    assert_eq!(field(&packet, "voltage.bat"), Some(FieldValue::Number(number(6.0))));
    assert_eq!(field(&packet, "proc.adc_offset"), Some(FieldValue::Integer(7)));
    assert_eq!(field(&packet, "usb.present"), Some(FieldValue::Flag(true)));
}

#[test]
fn other_names_give_no_field() {
    let packet = record(99);
    for key in ["", "id", "tvc_x", "tvc.y", "TVC.X", "temperature", "offset", "tvc.x "] {
        assert_eq!(field(&packet, key), None);
    }
}

#[test]
fn history_has_one_point_for_each_record_in_order() {
    let records = vec![record(10), record(20), record(30)];
    assert_eq!(
        get_datum(&records, "voltage.bat"),
        vec![
            Datum { running_us: 10, value: Some(FieldValue::Number(number(6.0))) },
            Datum { running_us: 20, value: Some(FieldValue::Number(number(6.0))) },
            Datum { running_us: 30, value: Some(FieldValue::Number(number(6.0))) },
        ]
    );
    assert_eq!(
        get_datum(&records, "nothing"),
        vec![
            Datum { running_us: 10, value: None },
            Datum { running_us: 20, value: None },
            Datum { running_us: 30, value: None },
        ]
    );
    assert_eq!(get_datum(&vec![], "tvc.x"), vec![]);
}
