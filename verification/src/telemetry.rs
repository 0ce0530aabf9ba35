//! Telemetry records and the catalogue that describes their fields.

use vstd::prelude::*;
use vstd::string::StringSliceAdditionalSpecFns;
use vstd::utf8::encode_utf8_decode_utf8;

verus! {

/// An IEEE-754 binary64 number, held by its bit pattern. Equality is equality
/// of bit patterns.
#[derive(Clone, Copy, Debug, PartialEq, Eq, Structural)]
pub struct F64Bits {
    pub bits: u64,
}

impl F64Bits {
    /// The number with the given bit pattern.
    pub fn from_bits(bits: u64) -> (number: F64Bits)
        ensures
            number.bits == bits,
    {
        F64Bits { bits }
    }
}

/// One telemetry sample as reported by the flight controller.
#[derive(Clone, Copy, Debug, PartialEq, Eq, Structural)]
pub struct TelemetryPacket {
    /// Microseconds on the device clock; the key by which samples are ordered.
    pub running_us: u64,
    pub tvc_x: F64Bits,
    pub tvc_z: F64Bits,
    pub angle: F64Bits,
    pub temperature: F64Bits,
    pub v_sys: F64Bits,
    pub v_bat: F64Bits,
    pub offset: u16,
    pub v_bus_present: bool,
}

/// Whether two strings hold the same characters.
pub fn str_equal(left: &str, right: &str) -> (same: bool)
    ensures
        same == (left@ == right@),
{
    let a = left.as_bytes();
    let b = right.as_bytes();
    proof {
        encode_utf8_decode_utf8(left@);
        encode_utf8_decode_utf8(right@);
    }
    if a.len() != b.len() {
        return false;
    }
    let mut i: usize = 0;
    while i < a.len()
        invariant
            i <= a.len(),
            a.len() == b.len(),
            a@ == left.spec_bytes(),
            b@ == right.spec_bytes(),
            forall|j: int| 0 <= j < i ==> a@[j] == b@[j],
        decreases a.len() - i,
    {
        if a[i] != b[i] {
            return false;
        }
        i = i + 1;
    }
    assert(a@ =~= b@);
    true
}

/// What an `Identifier` says, as plain values.
pub struct IdentifierView {
    pub namespace: Seq<char>,
    pub key: Seq<char>,
}

/// Uniquely identifies a domain object.
#[derive(Clone, Copy, Debug, PartialEq, Eq)]
pub struct Identifier<'a> {
    /// The namespace to or from which the object is loaded or stored.
    pub namespace: &'a str,
    /// What tells the object apart within that namespace.
    pub key: &'a str,
}

impl<'a> View for Identifier<'a> {
    type V = IdentifierView;

    open spec fn view(&self) -> IdentifierView {
        IdentifierView { namespace: self.namespace@, key: self.key@ }
    }
}

impl<'a> Identifier<'a> {
    /// The namespace under which every object of the catalogue lives.
    pub const NAMESPACE: &'static str = "dusterthefirst.pico-pilot";

    /// The identifier of `key` in the catalogue's namespace.
    pub fn from_key(key: &'a str) -> (identifier: Identifier<'a>)
        ensures
            identifier@ == (IdentifierView { namespace: Identifier::NAMESPACE@, key: key@ }),
    {
        Identifier { namespace: Self::NAMESPACE, key }
    }

    /// Whether both identifiers name the same object.
    pub fn same_as(&self, other: &Identifier) -> (same: bool)
        ensures
            same == (self@ == other@),
    {
        str_equal(self.namespace, other.namespace) && str_equal(self.key, other.key)
    }
}

/// One value that an enumerated measurement can take, and its label.
#[derive(Clone, Copy, Debug, PartialEq, Eq)]
pub struct TelemetryEnumeration<'s> {
    pub value: u32,
    pub string: &'s str,
}

/// What a `TelemetryEnumeration` says, as plain values.
pub struct EnumerationView {
    pub value: u32,
    pub string: Seq<char>,
}

impl<'s> View for TelemetryEnumeration<'s> {
    type V = EnumerationView;

    open spec fn view(&self) -> EnumerationView {
        EnumerationView { value: self.value, string: self.string@ }
    }
}

/// What a view should use a value for, with the weight of the hint: the lower
/// the weight, the higher the priority.
#[derive(Clone, Copy, Debug, PartialEq, Eq, Structural)]
pub enum ValueHint {
    Domain(u32),
    Range(u32),
    Image(u32),
}

impl Default for ValueHint {
    fn default() -> (hint: ValueHint)
        ensures
            hint == ValueHint::Range(1),
    {
        ValueHint::Range(1)
    }
}

/// The characters of an optional string.
pub open spec fn text_of(text: Option<&str>) -> Option<Seq<char>> {
    match text {
        Some(text) => Some(text@),
        None => None,
    }
}

/// The entries of an optional list of enumerations.
pub open spec fn enumerations_of(list: Option<&[TelemetryEnumeration]>) -> Option<
    Seq<EnumerationView>,
> {
    match list {
        Some(list) => Some(list@.map_values(|entry: TelemetryEnumeration| entry@)),
        None => None,
    }
}

/// What a `ValueMetadata` says, as plain values.
pub struct ValueMetadataView {
    pub key: Seq<char>,
    pub hints: ValueHint,
    pub name: Option<Seq<char>>,
    pub source: Option<Seq<char>>,
    pub format: Option<Seq<char>>,
    pub units: Option<Seq<char>>,
    pub min: Option<F64Bits>,
    pub max: Option<F64Bits>,
    pub enumerations: Option<Seq<EnumerationView>>,
}

/// Describes one value of a telemetry object to a user interface.
#[derive(Clone, Copy, Debug, PartialEq, Eq)]
pub struct ValueMetadata<'s> {
    /// What tells the value apart within its object.
    pub key: &'s str,
    /// What a view should use the value for.
    pub hints: ValueHint,
    /// A label for people; `key` stands in where there is none.
    pub name: Option<&'s str>,
    /// The property of a datum that holds the value; `key` stands in where
    /// there is none.
    pub source: Option<&'s str>,
    /// The formatter to show the value with.
    pub format: Option<&'s str>,
    /// The unit of the value.
    pub units: Option<&'s str>,
    /// The least value to expect.
    pub min: Option<F64Bits>,
    /// The greatest value to expect.
    pub max: Option<F64Bits>,
    /// For an enumerated value, what it can be.
    pub enumerations: Option<&'s [TelemetryEnumeration<'s>]>,
}

impl<'s> View for ValueMetadata<'s> {
    type V = ValueMetadataView;

    open spec fn view(&self) -> ValueMetadataView {
        ValueMetadataView {
            key: self.key@,
            hints: self.hints,
            name: text_of(self.name),
            source: text_of(self.source),
            format: text_of(self.format),
            units: text_of(self.units),
            min: self.min,
            max: self.max,
            enumerations: enumerations_of(self.enumerations),
        }
    }
}

/// Why a builder could not build.
#[derive(Clone, Copy, Debug, PartialEq, Eq)]
pub enum ValueMetadataBuilderError {
    /// The named field has no default and was not set.
    UninitializedField(&'static str),
}

/// Collects the fields of a `ValueMetadata` one by one. Only `key` has to be
/// set: `hints` falls back to its default and the others to `None`.
#[derive(Clone, Copy, Debug)]
pub struct ValueMetadataBuilder<'s> {
    pub key: Option<&'s str>,
    pub hints: Option<ValueHint>,
    pub name: Option<&'s str>,
    pub source: Option<&'s str>,
    pub format: Option<&'s str>,
    pub units: Option<&'s str>,
    pub min: Option<F64Bits>,
    pub max: Option<F64Bits>,
    pub enumerations: Option<&'s [TelemetryEnumeration<'s>]>,
}

impl<'s> Default for ValueMetadataBuilder<'s> {
    fn default() -> (builder: ValueMetadataBuilder<'s>)
        ensures
            builder == ValueMetadataBuilder::<'s>::empty(),
    {
        ValueMetadataBuilder {
            key: None,
            hints: None,
            name: None,
            source: None,
            format: None,
            units: None,
            min: None,
            max: None,
            enumerations: None,
        }
    }
}

impl<'s> ValueMetadataBuilder<'s> {
    /// The builder on which nothing was set.
    pub open spec fn empty() -> ValueMetadataBuilder<'s> {
        ValueMetadataBuilder {
            key: None,
            hints: None,
            name: None,
            source: None,
            format: None,
            units: None,
            min: None,
            max: None,
            enumerations: None,
        }
    }

    /// What `build` makes of the builder once `key` is set.
    pub open spec fn built(self) -> ValueMetadataView {
        ValueMetadataView {
            key: self.key->Some_0@,
            hints: match self.hints {
                Some(hints) => hints,
                None => ValueHint::Range(1),
            },
            name: text_of(self.name),
            source: text_of(self.source),
            format: text_of(self.format),
            units: text_of(self.units),
            min: self.min,
            max: self.max,
            enumerations: enumerations_of(self.enumerations),
        }
    }

    pub fn key(&mut self, value: &'s str) -> (builder: &mut Self)
        ensures
            *builder == (ValueMetadataBuilder { key: Some(value), ..*old(self) }),
            *final(self) == *final(builder),
    {
        self.key = Some(value);
        self
    }

    pub fn hints(&mut self, value: ValueHint) -> (builder: &mut Self)
        ensures
            *builder == (ValueMetadataBuilder { hints: Some(value), ..*old(self) }),
            *final(self) == *final(builder),
    {
        self.hints = Some(value);
        self
    }

    pub fn name(&mut self, value: &'s str) -> (builder: &mut Self)
        ensures
            *builder == (ValueMetadataBuilder { name: Some(value), ..*old(self) }),
            *final(self) == *final(builder),
    {
        self.name = Some(value);
        self
    }

    pub fn source(&mut self, value: &'s str) -> (builder: &mut Self)
        ensures
            *builder == (ValueMetadataBuilder { source: Some(value), ..*old(self) }),
            *final(self) == *final(builder),
    {
        self.source = Some(value);
        self
    }

    pub fn format(&mut self, value: &'s str) -> (builder: &mut Self)
        ensures
            *builder == (ValueMetadataBuilder { format: Some(value), ..*old(self) }),
            *final(self) == *final(builder),
    {
        self.format = Some(value);
        self
    }

    pub fn units(&mut self, value: &'s str) -> (builder: &mut Self)
        ensures
            *builder == (ValueMetadataBuilder { units: Some(value), ..*old(self) }),
            *final(self) == *final(builder),
    {
        self.units = Some(value);
        self
    }

    pub fn min(&mut self, value: F64Bits) -> (builder: &mut Self)
        ensures
            *builder == (ValueMetadataBuilder { min: Some(value), ..*old(self) }),
            *final(self) == *final(builder),
    {
        self.min = Some(value);
        self
    }

    pub fn max(&mut self, value: F64Bits) -> (builder: &mut Self)
        ensures
            *builder == (ValueMetadataBuilder { max: Some(value), ..*old(self) }),
            *final(self) == *final(builder),
    {
        self.max = Some(value);
        self
    }

    pub fn enumerations(&mut self, value: &'s [TelemetryEnumeration<'s>]) -> (builder: &mut Self)
        ensures
            *builder == (ValueMetadataBuilder { enumerations: Some(value), ..*old(self) }),
            *final(self) == *final(builder),
    {
        self.enumerations = Some(value);
        self
    }

    /// Builds the value, or names the field that is missing.
    pub fn build(&self) -> (result: Result<ValueMetadata<'s>, ValueMetadataBuilderError>)
        ensures
            result is Ok <==> self.key is Some,
            result is Ok ==> result->Ok_0@ == self.built(),
            result is Err ==> (result->Err_0 matches ValueMetadataBuilderError::UninitializedField(
                field,
            ) && field@ == "key"@),
    {
        match self.key {
            Some(key) => Ok(
                ValueMetadata {
                    key,
                    hints: match self.hints {
                        Some(hints) => hints,
                        None => ValueHint::Range(1),
                    },
                    name: self.name,
                    source: self.source,
                    format: self.format,
                    units: self.units,
                    min: self.min,
                    max: self.max,
                    enumerations: self.enumerations,
                },
            ),
            None => Err(ValueMetadataBuilderError::UninitializedField("key")),
        }
    }
}

/// What a `DomainObject` says, as plain values.
pub struct DomainObjectView {
    pub identifier: IdentifierView,
    pub ty: Seq<char>,
    pub name: Seq<char>,
    pub creator: Option<Seq<char>>,
    pub location: Seq<char>,
    pub modified: Option<u64>,
    pub composition: Option<Seq<IdentifierView>>,
    pub telemetry: Option<Seq<ValueMetadataView>>,
}

/// The values that a telemetry object reports.
#[derive(Clone, Debug, PartialEq, Eq)]
pub struct DomainObjectTelemetry<'a> {
    pub values: Vec<ValueMetadata<'a>>,
}

impl<'a> View for DomainObjectTelemetry<'a> {
    type V = Seq<ValueMetadataView>;

    open spec fn view(&self) -> Seq<ValueMetadataView> {
        self.values@.map_values(|value: ValueMetadata| value@)
    }
}

impl<'a> DomainObjectTelemetry<'a> {
    pub fn new(meta: Vec<ValueMetadata<'a>>) -> (telemetry: DomainObjectTelemetry<'a>)
        ensures
            telemetry.values == meta,
    {
        DomainObjectTelemetry { values: meta }
    }
}

/// Something that shows as an object of its own in a user interface: here, a
/// measurement.
#[derive(Clone, Debug, PartialEq, Eq)]
pub struct DomainObject<'a> {
    /// The namespace and key that identify the object.
    pub identifier: Identifier<'a>,
    /// The kind of object.
    pub ty: &'a str,
    /// A name for people.
    pub name: &'a str,
    /// Who made the object.
    pub creator: Option<&'a str>,
    pub location: &'a str,
    /// When the object was last changed, in milliseconds since the UNIX epoch.
    pub modified: Option<u64>,
    /// The objects that this one is made of.
    pub composition: Option<&'a [Identifier<'a>]>,
    pub telemetry: Option<DomainObjectTelemetry<'a>>,
}

impl<'a> View for DomainObject<'a> {
    type V = DomainObjectView;

    open spec fn view(&self) -> DomainObjectView {
        DomainObjectView {
            identifier: self.identifier@,
            ty: self.ty@,
            name: self.name@,
            creator: text_of(self.creator),
            location: self.location@,
            modified: self.modified,
            composition: match self.composition {
                Some(parts) => Some(parts@.map_values(|part: Identifier| part@)),
                None => None,
            },
            telemetry: match self.telemetry {
                Some(telemetry) => Some(telemetry@),
                None => None,
            },
        }
    }
}

/// The kind of every object of the catalogue.
pub const TELEMETRY_TYPE: &'static str = "dusterthefirst.pico-pilot.telemetry";

/// Where every object of the catalogue hangs.
pub const TELEMETRY_LOCATION: &'static str = "dusterthefirst.pico-pilot:avionics";

/// The description of the timestamp that every measurement shares.
pub open spec fn telemetry_time_view() -> ValueMetadataView {
    ValueMetadataView {
        key: "uc_running_us"@,
        hints: ValueHint::Domain(1),
        name: Some("Timestamp"@),
        source: Some("running_us"@),
        format: None,
        units: None,
        min: None,
        max: None,
        enumerations: None,
    }
}

/// The description of the timestamp that every measurement shares.
pub fn telemetry_time() -> (time: ValueMetadata<'static>)
    ensures
        time@ == telemetry_time_view(),
{
    let mut builder = ValueMetadataBuilder::default();
    builder.hints(ValueHint::Domain(1)).key("uc_running_us").source("running_us").name("Timestamp");
    builder.build().unwrap()
}

/// The object under `key` with the name `name`, whose one value, apart from
/// the timestamp, is what `value_metadata` describes once its key is set to
/// `value` and its name to `Value`.
pub open spec fn telemetry_object_view(
    key: Seq<char>,
    name: Seq<char>,
    value_metadata: ValueMetadataBuilder,
) -> DomainObjectView {
    DomainObjectView {
        identifier: IdentifierView { namespace: Identifier::NAMESPACE@, key },
        ty: TELEMETRY_TYPE@,
        name,
        creator: None,
        location: TELEMETRY_LOCATION@,
        modified: None,
        composition: None,
        telemetry: Some(
            seq![
                (ValueMetadataBuilder {
                    key: Some("value"),
                    name: Some("Value"),
                    ..value_metadata
                }).built(),
                telemetry_time_view(),
            ],
        ),
    }
}

/// Makes the catalogue object of one measurement. The builder comes back
/// with its key set to `value` and its name to `Value`.
pub fn telemetry_domain_object<'a>(
    key: &'a str,
    name: &'a str,
    value_metadata: &mut ValueMetadataBuilder<'a>,
) -> (object: DomainObject<'a>)
    ensures
        object@ == telemetry_object_view(key@, name@, *old(value_metadata)),
        *final(value_metadata) == (ValueMetadataBuilder {
            key: Some("value"),
            name: Some("Value"),
            ..*old(value_metadata)
        }),
{
    value_metadata.key("value").name("Value");
    let value = value_metadata.build().unwrap();
    let mut values: Vec<ValueMetadata<'a>> = Vec::new();
    values.push(value);
    values.push(telemetry_time());
    let object = DomainObject {
        composition: None,
        creator: None,
        identifier: Identifier::from_key(key),
        location: TELEMETRY_LOCATION,
        modified: None,
        ty: TELEMETRY_TYPE,
        name,
        telemetry: Some(DomainObjectTelemetry::new(values)),
    };
    assert(object@.telemetry->Some_0 =~= telemetry_object_view(
        key@,
        name@,
        *old(value_metadata),
    ).telemetry->Some_0);
    object
}

/// The bit patterns of the bounds that the catalogue names: -5, 0, 5, 5.5,
/// 2π, 20, 50 and 100.
pub const F64_NEG_5: u64 = 0xC014_0000_0000_0000;

pub const F64_0: u64 = 0x0000_0000_0000_0000;

pub const F64_5: u64 = 0x4014_0000_0000_0000;

pub const F64_5_5: u64 = 0x4016_0000_0000_0000;

pub const F64_TWO_PI: u64 = 0x4019_21FB_5444_2D18;

pub const F64_20: u64 = 0x4034_0000_0000_0000;

pub const F64_50: u64 = 0x4049_0000_0000_0000;

pub const F64_100: u64 = 0x4059_0000_0000_0000;

/// What is set on the builder of one measurement before its object is made.
pub open spec fn measurement(
    format: &'static str,
    units: Option<&'static str>,
    min: Option<F64Bits>,
    max: Option<F64Bits>,
) -> ValueMetadataBuilder<'static> {
    ValueMetadataBuilder {
        key: None,
        hints: None,
        name: None,
        source: None,
        format: Some(format),
        units,
        min,
        max,
        enumerations: None,
    }
}

/// The catalogue: one object for each measurement of a telemetry record.
pub open spec fn catalogue() -> Seq<DomainObjectView> {
    seq![
        telemetry_object_view(
            "tvc.x"@,
            "TVC X Axis"@,
            measurement("float", Some("degrees"), Some(F64Bits { bits: F64_NEG_5 }), Some(F64Bits { bits: F64_5 })),
        ),
        telemetry_object_view(
            "tvc.z"@,
            "TVC X Axis"@,
            measurement("float", Some("degrees"), Some(F64Bits { bits: F64_NEG_5 }), Some(F64Bits { bits: F64_5 })),
        ),
        telemetry_object_view(
            "tvc.angle"@,
            "TVC Angle [debug]"@,
            measurement("float", Some("radians"), Some(F64Bits { bits: F64_0 }), Some(F64Bits { bits: F64_TWO_PI })),
        ),
        telemetry_object_view(
            "proc.temp"@,
            "Processor Temperature"@,
            measurement("float", Some("celsius"), Some(F64Bits { bits: F64_20 }), Some(F64Bits { bits: F64_50 })),
        ),
        telemetry_object_view(
            "voltage.sys"@,
            "System Bus"@,
            measurement("float", Some("volt"), Some(F64Bits { bits: F64_0 }), Some(F64Bits { bits: F64_5_5 })),
        ),
        telemetry_object_view(
            "voltage.bat"@,
            "Battery"@,
            measurement("float", Some("volt"), Some(F64Bits { bits: F64_0 }), Some(F64Bits { bits: F64_20 })),
        ),
        telemetry_object_view(
            "proc.adc_offset"@,
            "ADC Offset"@,
            measurement("integer", None, Some(F64Bits { bits: F64_0 }), Some(F64Bits { bits: F64_100 })),
        ),
        telemetry_object_view(
            "usb.present"@,
            "USB Present"@,
            measurement("boolean", None, None, None),
        ),
    ]
}

/// Builds the catalogue.
pub fn telemetry_values() -> (values: Vec<DomainObject<'static>>)
    ensures
        values@.map_values(|object: DomainObject| object@) == catalogue(),
{
    let mut values: Vec<DomainObject<'static>> = Vec::new();
    let mut builder = ValueMetadataBuilder::default();
    builder.format("float").units("degrees").min(F64Bits::from_bits(F64_NEG_5)).max(F64Bits::from_bits(F64_5));
    values.push(telemetry_domain_object("tvc.x", "TVC X Axis", &mut builder));
    assert(values@.map_values(|object: DomainObject| object@) =~= catalogue().take(values.len() as int));
    let mut builder = ValueMetadataBuilder::default();
    builder.format("float").units("degrees").min(F64Bits::from_bits(F64_NEG_5)).max(F64Bits::from_bits(F64_5));
    values.push(telemetry_domain_object("tvc.z", "TVC X Axis", &mut builder));
    assert(values@.map_values(|object: DomainObject| object@) =~= catalogue().take(values.len() as int));
    let mut builder = ValueMetadataBuilder::default();
    builder.format("float").units("radians").min(F64Bits::from_bits(F64_0)).max(F64Bits::from_bits(F64_TWO_PI));
    values.push(telemetry_domain_object("tvc.angle", "TVC Angle [debug]", &mut builder));
    assert(values@.map_values(|object: DomainObject| object@) =~= catalogue().take(values.len() as int));
    let mut builder = ValueMetadataBuilder::default();
    builder.format("float").units("celsius").min(F64Bits::from_bits(F64_20)).max(F64Bits::from_bits(F64_50));
    values.push(telemetry_domain_object("proc.temp", "Processor Temperature", &mut builder));
    assert(values@.map_values(|object: DomainObject| object@) =~= catalogue().take(values.len() as int));
    let mut builder = ValueMetadataBuilder::default();
    builder.format("float").units("volt").min(F64Bits::from_bits(F64_0)).max(F64Bits::from_bits(F64_5_5));
    values.push(telemetry_domain_object("voltage.sys", "System Bus", &mut builder));
    assert(values@.map_values(|object: DomainObject| object@) =~= catalogue().take(values.len() as int));
    let mut builder = ValueMetadataBuilder::default();
    builder.format("float").units("volt").min(F64Bits::from_bits(F64_0)).max(F64Bits::from_bits(F64_20));
    values.push(telemetry_domain_object("voltage.bat", "Battery", &mut builder));
    assert(values@.map_values(|object: DomainObject| object@) =~= catalogue().take(values.len() as int));
    let mut builder = ValueMetadataBuilder::default();
    builder.format("integer").min(F64Bits::from_bits(F64_0)).max(F64Bits::from_bits(F64_100));
    values.push(telemetry_domain_object("proc.adc_offset", "ADC Offset", &mut builder));
    assert(values@.map_values(|object: DomainObject| object@) =~= catalogue().take(values.len() as int));
    let mut builder = ValueMetadataBuilder::default();
    builder.format("boolean");
    values.push(telemetry_domain_object("usb.present", "USB Present", &mut builder));
    assert(values@.map_values(|object: DomainObject| object@) =~= catalogue().take(values.len() as int));
    assert(catalogue().take(8) =~= catalogue());
    values
}

/// The identifiers of the objects of the catalogue, in its order.
pub fn get_telemetry_composition() -> (identifiers: Vec<Identifier<'static>>)
    ensures
        identifiers@.map_values(|identifier: Identifier| identifier@) == catalogue().map_values(
            |object: DomainObjectView| object.identifier,
        ),
{
    let values = telemetry_values();
    let mut identifiers: Vec<Identifier<'static>> = Vec::new();
    let mut i: usize = 0;
    while i < values.len()
        invariant
            i <= values.len(),
            identifiers.len() == i,
            forall|j: int| 0 <= j < i ==> identifiers@[j] == values@[j].identifier,
        decreases values.len() - i,
    {
        identifiers.push(values[i].identifier);
        i = i + 1;
    }
    assert(identifiers@.map_values(|identifier: Identifier| identifier@)
        =~= values@.map_values(|object: DomainObject| object@).map_values(
        |object: DomainObjectView| object.identifier,
    ));
    identifiers
}

/// The first object of the catalogue that `identifier` names, if there is
/// one.
pub fn get_telemetry_metadata(identifier: Identifier) -> (found: Option<DomainObject<'static>>)
    ensures
        match found {
            Some(object) => exists|i: int|
                {
                    &&& 0 <= i < catalogue().len()
                    &&& #[trigger] catalogue()[i] == object@
                    &&& object@.identifier == identifier@
                    &&& forall|j: int| 0 <= j < i ==> catalogue()[j].identifier != identifier@
                },
            None => forall|i: int|
                0 <= i < catalogue().len() ==> catalogue()[i].identifier != identifier@,
        },
{
    let mut values = telemetry_values();
    let ghost views = values@.map_values(|object: DomainObject| object@);
    let mut i: usize = 0;
    while i < values.len()
        invariant
            i <= values.len(),
            views == catalogue(),
            views == values@.map_values(|object: DomainObject| object@),
            forall|j: int| 0 <= j < i ==> catalogue()[j].identifier != identifier@,
        decreases values.len() - i,
    {
        assert(views[i as int] == values@[i as int]@);
        if values[i].identifier.same_as(&identifier) {
            let object = values.swap_remove(i);
            assert(catalogue()[i as int] == object@);
            return Some(object);
        }
        i = i + 1;
    }
    None
}

} // verus!
