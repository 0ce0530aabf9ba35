use ground_station::telemetry::{
    get_telemetry_composition, get_telemetry_metadata, str_equal, telemetry_domain_object,
    telemetry_time, telemetry_values, DomainObjectTelemetry, F64Bits, Identifier,
    TelemetryEnumeration, ValueHint, ValueMetadata, ValueMetadataBuilder,
    ValueMetadataBuilderError, TELEMETRY_LOCATION, TELEMETRY_TYPE,
};

fn number(value: f64) -> Option<F64Bits> {
    Some(F64Bits::from_bits(value.to_bits()))
}

const KEYS: [&str; 8] = [
    "tvc.x",
    "tvc.z",
    "tvc.angle",
    "proc.temp",
    "voltage.sys",
    "voltage.bat",
    "proc.adc_offset",
    "usb.present",
];

#[test]
fn from_key_puts_the_key_in_the_namespace() {
    let identifier = Identifier::from_key("tvc.x");
    assert_eq!(identifier.namespace, "dusterthefirst.pico-pilot");
    assert_eq!(identifier.key, "tvc.x");
    assert_eq!(Identifier::NAMESPACE, "dusterthefirst.pico-pilot");
    assert_eq!(Identifier::from_key("").key, "");
}

#[test]
fn identifiers_are_the_same_when_namespace_and_key_are() {
    let identifier = Identifier::from_key("tvc.x");
    assert!(identifier.same_as(&Identifier::from_key("tvc.x")));
    assert!(!identifier.same_as(&Identifier::from_key("tvc.z")));
    assert!(!identifier.same_as(&Identifier { namespace: "elsewhere", key: "tvc.x" }));
    assert!(str_equal("", ""));
    assert!(str_equal("voltage.bat", "voltage.bat"));
    assert!(!str_equal("voltage.bat", "voltage.ba"));
    assert!(!str_equal("voltage.bat", "voltage.bas"));
    assert!(str_equal("größe", "größe"));
    assert!(!str_equal("größe", "grösse"));
}

#[test]
fn the_default_hint_is_range_one() {
    assert_eq!(ValueHint::default(), ValueHint::Range(1));
}

#[test]
fn the_composition_lists_every_measurement_in_order() {
    let composition = get_telemetry_composition();
    let expected: Vec<Identifier> = KEYS.iter().map(|key| Identifier::from_key(key)).collect();
    assert_eq!(composition, expected);
}

#[test]
fn metadata_is_found_by_identifier() {
    for key in KEYS {
        let object = get_telemetry_metadata(Identifier::from_key(key)).unwrap();
        assert_eq!(object.identifier, Identifier::from_key(key));
    }
    assert_eq!(get_telemetry_metadata(Identifier::from_key("tvc.y")), None);
    assert_eq!(get_telemetry_metadata(Identifier::from_key("")), None);
    assert_eq!(get_telemetry_metadata(Identifier { namespace: "elsewhere", key: "tvc.x" }), None);
}

#[test]
fn the_catalogue_describes_the_processor_temperature() {
    let object = get_telemetry_metadata(Identifier::from_key("proc.temp")).unwrap();
    assert_eq!(object.ty, "dusterthefirst.pico-pilot.telemetry");
    assert_eq!(object.ty, TELEMETRY_TYPE);
    assert_eq!(object.name, "Processor Temperature");
    assert_eq!(object.creator, None);
    assert_eq!(object.location, "dusterthefirst.pico-pilot:avionics");
    assert_eq!(object.location, TELEMETRY_LOCATION);
    assert_eq!(object.modified, None);
    assert_eq!(object.composition, None);
    assert_eq!(
        object.telemetry,
        Some(DomainObjectTelemetry {
            values: vec![
                ValueMetadata {
                    key: "value",
                    hints: ValueHint::Range(1),
                    name: Some("Value"),
                    source: None,
                    format: Some("float"),
                    units: Some("celsius"),
                    min: number(20.0),
                    max: number(50.0),
                    enumerations: None,
                },
                ValueMetadata {
                    key: "uc_running_us",
                    hints: ValueHint::Domain(1),
                    name: Some("Timestamp"),
                    source: Some("running_us"),
                    format: None,
                    units: None,
                    min: None,
                    max: None,
                    enumerations: None,
                },
            ],
        })
    );
}

#[test]
fn the_catalogue_names_formats_units_and_bounds() {
    let rows: [(&str, &str, &str, Option<&str>, Option<F64Bits>, Option<F64Bits>); 8] = [
        ("tvc.x", "TVC X Axis", "float", Some("degrees"), number(-5.0), number(5.0)),
        ("tvc.z", "TVC X Axis", "float", Some("degrees"), number(-5.0), number(5.0)),
        (
            "tvc.angle",
            "TVC Angle [debug]",
            "float",
            Some("radians"),
            number(0.0),
            number(std::f64::consts::PI * 2.0),
        ),
        ("proc.temp", "Processor Temperature", "float", Some("celsius"), number(20.0), number(50.0)),
        ("voltage.sys", "System Bus", "float", Some("volt"), number(0.0), number(5.5)),
        ("voltage.bat", "Battery", "float", Some("volt"), number(0.0), number(20.0)),
        ("proc.adc_offset", "ADC Offset", "integer", None, number(0.0), number(100.0)),
        ("usb.present", "USB Present", "boolean", None, None, None),
    ];
    let values = telemetry_values();
    assert_eq!(values.len(), rows.len());
    for (object, (key, name, format, units, min, max)) in values.iter().zip(rows) {
        assert_eq!(object.identifier, Identifier::from_key(key));
        assert_eq!(object.name, name);
        let telemetry = object.telemetry.as_ref().unwrap();
        assert_eq!(telemetry.values.len(), 2);
        let value = telemetry.values[0];
        assert_eq!(value.key, "value");
        assert_eq!(value.name, Some("Value"));
        assert_eq!(value.hints, ValueHint::Range(1));
        assert_eq!(value.source, None);
        assert_eq!(value.format, Some(format));
        assert_eq!(value.units, units);
        assert_eq!(value.min, min);
        assert_eq!(value.max, max);
        assert_eq!(value.enumerations, None);
        assert_eq!(telemetry.values[1], telemetry_time());
    }
}

#[test]
fn the_timestamp_is_the_domain_of_every_measurement() {
    let time = telemetry_time();
    assert_eq!(time.key, "uc_running_us");
    assert_eq!(time.hints, ValueHint::Domain(1));
    assert_eq!(time.source, Some("running_us"));
    assert_eq!(time.name, Some("Timestamp"));
}

#[test]
fn a_builder_without_a_key_does_not_build() {
    let mut builder = ValueMetadataBuilder::default();
    builder.format("float").units("volt");
    assert_eq!(builder.build(), Err(ValueMetadataBuilderError::UninitializedField("key")));
}

#[test]
fn a_builder_with_just_a_key_falls_back_to_the_defaults() {
    let mut builder = ValueMetadataBuilder::default();
    builder.key("k");
    assert_eq!(
        builder.build(),
        Ok(ValueMetadata {
            key: "k",
            hints: ValueHint::Range(1),
            name: None,
            source: None,
            format: None,
            units: None,
            min: None,
            max: None,
            enumerations: None,
        })
    );
}

#[test]
fn a_builder_keeps_what_was_set() {
    let states = [
        TelemetryEnumeration { value: 0, string: "OFF" },
        TelemetryEnumeration { value: 1, string: "ON" },
    ];
    let mut builder = ValueMetadataBuilder::default();
    builder
        .key("state")
        .hints(ValueHint::Image(3))
        .name("State")
        .source("raw")
        .format("enum")
        .units("none")
        .min(F64Bits::from_bits(0.0f64.to_bits()))
        .max(F64Bits::from_bits(1.0f64.to_bits()))
        .enumerations(&states);
    assert_eq!(
        builder.build(),
        Ok(ValueMetadata {
            key: "state",
            hints: ValueHint::Image(3),
            name: Some("State"),
            source: Some("raw"),
            format: Some("enum"),
            units: Some("none"),
            min: number(0.0),
            max: number(1.0),
            enumerations: Some(&states[..]),
        })
    );
    builder.key("other");
    assert_eq!(builder.build().unwrap().key, "other");
}

#[test]
fn a_domain_object_is_made_of_its_value_and_the_timestamp() {
    let mut builder = ValueMetadataBuilder::default();
    builder.format("float").key("overwritten").name("overwritten");
    let object = telemetry_domain_object("thing", "A Thing", &mut builder);
    assert_eq!(object.identifier, Identifier::from_key("thing"));
    assert_eq!(object.name, "A Thing");
    let values = object.telemetry.unwrap().values;
    assert_eq!(values[0].key, "value");
    assert_eq!(values[0].name, Some("Value"));
    assert_eq!(values[0].format, Some("float"));
    assert_eq!(values[1], telemetry_time());
    assert_eq!(builder.key, Some("value"));
    assert_eq!(builder.name, Some("Value"));
    assert_eq!(DomainObjectTelemetry::new(values.clone()).values, values);
}
