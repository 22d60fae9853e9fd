//! Values, packets and the parser that reads them from the bytes of a log.

use crate::bytes::{
    lemma_be_bytes_of_number, lemma_be_number_bound, lemma_be_number_of_bytes,
    lemma_le_bytes_of_number, lemma_le_number_bound, lemma_le_number_of_bytes,
    lemma_span_monotonic, lemma_span_values, read_number, span, wire_bytes, wire_number,
    write_number,
};
use crate::configuration::{
    Endianess, RocketConfig, RocketConfigView, SensorConfigView, ValueConfig, ValueKind,
};
use crate::float_text::{
    binary32, binary64, float32_text, float32_to_string, float64_text, float64_to_string,
    lemma_float_text_has_no_comma,
};
use crate::result_table::SourceIterator;
use crate::text::{
    decimal, lemma_decimal_digits, lemma_occurrences_none, occurrences, push_decimal,
    push_signed_decimal, signed_decimal,
};
use vstd::arithmetic::power2::{lemma2_to64, lemma2_to64_rest, pow2};
use vstd::prelude::*;

verus! {

/// A value that is recorded in a packet.
///
/// This is the raw reading: the bytes of the log as one number, without the
/// kind of value that they stand for. Only the lowest bytes count, as many as
/// the kind is wide. For user-facing code that needs to know the kind, see
/// [`TypedValue`].
#[derive(Clone, Copy, Debug, PartialEq, Eq, Structural)]
pub struct Value {
    pub bits: u64,
}

impl Value {
    /// The bytes that count for the given kind, as an unsigned number.
    pub open spec fn payload(self, kind: ValueKind) -> nat {
        self.bits as nat % span(kind.width())
    }

    /// What the reading stands for as a value of the given kind: for an
    /// integer kind the integer, read as two's complement where the kind is
    /// signed; for a float kind the IEEE-754 bit pattern.
    pub open spec fn number(self, kind: ValueKind) -> int {
        let payload = self.payload(kind);
        if kind.is_signed() && 2 * payload >= span(kind.width()) {
            payload - span(kind.width())
        } else {
            payload as int
        }
    }

    /// The reading that a run of bytes of the log holds.
    pub open spec fn decoded(bytes: Seq<u8>, endianess: Endianess) -> Value {
        Value { bits: wire_number(bytes, endianess) as u64 }
    }

    /// The bytes by which the log holds the reading as a value of the given
    /// kind.
    pub open spec fn encoded(self, kind: ValueKind, endianess: Endianess) -> Seq<u8> {
        wire_bytes(self.bits as nat, kind.width(), endianess)
    }

    /// The reading as text: an integer in plain decimal, a float with eight
    /// decimals.
    pub open spec fn text(self, kind: ValueKind) -> Seq<char> {
        match kind {
            ValueKind::Float32 => float32_text(self.payload(kind) as u32),
            ValueKind::Float64 => float64_text(self.payload(kind) as u64),
            _ => signed_decimal(self.number(kind)),
        }
    }

    /// The place of the reading among the values of the given kind: the
    /// larger key belongs to the larger value. Integers are ordered as
    /// numbers, floats by the total order of IEEE-754.
    pub open spec fn order_key(self, kind: ValueKind) -> int {
        match kind {
            ValueKind::Float32 => binary32().order_key(self.payload(kind)),
            ValueKind::Float64 => binary64().order_key(self.payload(kind)),
            _ => self.number(kind),
        }
    }

    /// The bytes that count for the given kind, as an unsigned number.
    pub fn payload_of(&self, value_kind: &ValueKind) -> (payload: u64)
        ensures
            payload == self.payload(*value_kind),
    {
        proof {
            lemma_span_values();
            vstd::arithmetic::div_mod::lemma_small_mod(self.bits as nat, span(8));
        }
        match value_kind.byte_width() {
            1 => self.bits % 0x100,
            2 => self.bits % 0x1_0000,
            4 => self.bits % 0x1_0000_0000,
            _ => self.bits,
        }
    }

    /// What the reading stands for as a value of the given kind.
    pub fn number_of(&self, value_kind: &ValueKind) -> (number: i128)
        ensures
            number == self.number(*value_kind),
    {
        proof {
            lemma_span_values();
        }
        let payload: u64 = self.payload_of(value_kind);
        match value_kind {
            ValueKind::Int8 => if payload >= 0x80 {
                payload as i128 - 0x100
            } else {
                payload as i128
            },
            ValueKind::Int16 => if payload >= 0x8000 {
                payload as i128 - 0x1_0000
            } else {
                payload as i128
            },
            ValueKind::Int32 => if payload >= 0x8000_0000 {
                payload as i128 - 0x1_0000_0000
            } else {
                payload as i128
            },
            ValueKind::Int64 => if payload >= 0x8000_0000_0000_0000 {
                payload as i128 - 0x1_0000_0000_0000_0000
            } else {
                payload as i128
            },
            _ => payload as i128,
        }
    }

    /// Converts the value to a string.
    ///
    /// Integers are written in plain decimal with no special formatting.
    /// Floats are written with 8 decimal places.
    ///
    /// # Arguments
    ///
    /// * `value_kind` - The kind of value to convert.
    pub fn to_string(&self, value_kind: &ValueKind) -> (text: String)
        ensures
            text@ == self.text(*value_kind),
    {
        proof {
            lemma_span_values();
        }
        match value_kind {
            ValueKind::Float32 => float32_to_string(self.payload_of(value_kind) as u32),
            ValueKind::Float64 => float64_to_string(self.payload_of(value_kind)),
            _ => {
                let mut text = String::new();
                push_signed_decimal(&mut text, self.number_of(value_kind));
                assert(text@ =~= self.text(*value_kind));
                text
            },
        }
    }

    /// The place of the reading among the values of the given kind.
    pub fn order_key_of(&self, value_kind: &ValueKind) -> (key: i128)
        ensures
            key == self.order_key(*value_kind),
    {
        proof {
            lemma_span_values();
            lemma2_to64();
            lemma2_to64_rest();
        }
        match value_kind {
            ValueKind::Float32 => {
                let payload: u64 = self.payload_of(value_kind);
                let magnitude: u64 = payload % 0x8000_0000;
                if (payload / 0x8000_0000) % 2 == 1 {
                    -(magnitude as i128) - 1
                } else {
                    magnitude as i128
                }
            },
            ValueKind::Float64 => {
                let payload: u64 = self.payload_of(value_kind);
                let magnitude: u64 = payload % 0x8000_0000_0000_0000;
                if (payload / 0x8000_0000_0000_0000) % 2 == 1 {
                    -(magnitude as i128) - 1
                } else {
                    magnitude as i128
                }
            },
            _ => self.number_of(value_kind),
        }
    }

    /// Reads a value of the given kind from the front of `bytes`.
    ///
    /// The value takes as many bytes as its kind is wide. Where `bytes` is
    /// shorter than that, nothing can be read.
    pub fn from_bytes(bytes: &[u8], value_kind: &ValueKind, endianess: &Endianess) -> (read: Result<
        Value,
        PacketError,
    >)
        ensures
            read == if bytes@.len() >= value_kind.width() {
                Ok::<Value, PacketError>(
                    Value::decoded(bytes@.take(value_kind.width() as int), *endianess),
                )
            } else {
                Err::<Value, PacketError>(PacketError::TruncatedRead)
            },
    {
        let width: usize = value_kind.byte_width();
        if bytes.len() < width {
            return Err(PacketError::TruncatedRead);
        }
        let bits: u64 = read_number(bytes, 0, width, *endianess);
        assert(bytes@.subrange(0, width as int) =~= bytes@.take(width as int));
        Ok(Value { bits })
    }

    /// The bytes by which the log holds the reading as a value of the given
    /// kind.
    pub fn to_bytes(&self, value_kind: &ValueKind, endianess: &Endianess) -> (bytes: Vec<u8>)
        ensures
            bytes@ == self.encoded(*value_kind, *endianess),
    {
        let mut bytes: Vec<u8> = Vec::new();
        write_number(&mut bytes, self.bits, value_kind.byte_width(), *endianess);
        assert(bytes@ =~= self.encoded(*value_kind, *endianess));
        bytes
    }
}

/// The bytes of a value decode to a reading that encodes to the same bytes,
/// whatever the kind and the byte order.
pub proof fn lemma_decode_encode(bytes: Seq<u8>, kind: ValueKind, endianess: Endianess)
    requires
        bytes.len() == kind.width(),
    ensures
        Value::decoded(bytes, endianess).encoded(kind, endianess) == bytes,
        Value::decoded(bytes, endianess).payload(kind) == wire_number(bytes, endianess),
{
    lemma_span_values();
    lemma_span_monotonic(bytes.len(), 8);
    lemma_be_number_bound(bytes);
    lemma_le_number_bound(bytes);
    lemma_be_bytes_of_number(bytes);
    lemma_le_bytes_of_number(bytes);
    vstd::arithmetic::div_mod::lemma_small_mod(wire_number(bytes, endianess), span(bytes.len()));
}

/// The bytes written for a reading decode to what counts of the reading for
/// the kind.
pub proof fn lemma_encode_decode(value: Value, kind: ValueKind, endianess: Endianess)
    ensures
        value.encoded(kind, endianess).len() == kind.width(),
        Value::decoded(value.encoded(kind, endianess), endianess).bits == value.payload(kind),
{
    lemma_span_values();
    lemma_be_number_of_bytes(value.bits as nat, kind.width());
    lemma_le_number_of_bytes(value.bits as nat, kind.width());
}

/// A safe wrapper around a value that knows its type.
#[derive(Clone, Copy, Debug, PartialEq, Eq, Structural)]
pub struct TypedValue {
    pub value: Value,
    pub value_kind: ValueKind,
}

impl TypedValue {
    /// Pairs a reading with the kind of value that it stands for.
    pub fn new(value: Value, value_kind: &ValueKind) -> (typed: Self)
        ensures
            typed == (TypedValue { value, value_kind: *value_kind }),
    {
        Self { value, value_kind: *value_kind }
    }

    /// What the value stands for: see [`Value::number`].
    pub open spec fn number(self) -> int {
        self.value.number(self.value_kind)
    }

    /// The value as text: see [`Value::text`].
    pub open spec fn text(self) -> Seq<char> {
        self.value.text(self.value_kind)
    }

    /// The place of the value among the values of its kind: see
    /// [`Value::order_key`].
    pub open spec fn order_key(self) -> int {
        self.value.order_key(self.value_kind)
    }

    /// The smaller of two values of one kind, and `self` where they are
    /// equal.
    pub open spec fn min(self, other: TypedValue) -> TypedValue {
        if other.order_key() < self.order_key() {
            other
        } else {
            self
        }
    }

    /// The larger of two values of one kind, and `self` where they are
    /// equal.
    pub open spec fn max(self, other: TypedValue) -> TypedValue {
        if other.order_key() > self.order_key() {
            other
        } else {
            self
        }
    }

    /// The value as text: an integer in plain decimal, a float with eight
    /// decimals.
    pub fn to_string(&self) -> (text: String)
        ensures
            text@ == self.text(),
    {
        self.value.to_string(&self.value_kind)
    }

    /// The smaller of two values, where they are of one kind.
    pub fn partial_min(&self, other: &TypedValue) -> (least: Option<TypedValue>)
        ensures
            least == if self.value_kind == other.value_kind {
                Some(self.min(*other))
            } else {
                None
            },
    {
        if self.value_kind != other.value_kind {
            return None;
        }
        if other.value.order_key_of(&other.value_kind) < self.value.order_key_of(
            &self.value_kind,
        ) {
            Some(*other)
        } else {
            Some(*self)
        }
    }

    /// The larger of two values, where they are of one kind.
    pub fn partial_max(&self, other: &TypedValue) -> (most: Option<TypedValue>)
        ensures
            most == if self.value_kind == other.value_kind {
                Some(self.max(*other))
            } else {
                None
            },
    {
        if self.value_kind != other.value_kind {
            return None;
        }
        if other.value.order_key_of(&other.value_kind) > self.value.order_key_of(
            &self.value_kind,
        ) {
            Some(*other)
        } else {
            Some(*self)
        }
    }
}

/// The text of a value holds no comma, whatever its kind.
pub proof fn lemma_value_text_has_no_comma(value: TypedValue)
    ensures
        occurrences(value.text(), ',') == 0,
{
    let kind = value.value_kind;
    let payload = value.value.payload(kind);
    if kind is Float32 {
        lemma_float_text_has_no_comma(binary32(), (payload as u32) as nat);
    } else if kind is Float64 {
        lemma_float_text_has_no_comma(binary64(), (payload as u64) as nat);
    } else {
        let number = value.number();
        if number < 0 {
            lemma_decimal_digits((-number) as nat);
        } else {
            lemma_decimal_digits(number as nat);
        }
    }
    lemma_occurrences_none(value.text(), ',');
}

/// Two values of one kind that have the same place in the order are the same
/// reading: the order of each kind is total.
pub proof fn lemma_order_key_injective(a: TypedValue, b: TypedValue)
    requires
        a.value_kind == b.value_kind,
        a.order_key() == b.order_key(),
    ensures
        a.value.payload(a.value_kind) == b.value.payload(b.value_kind),
        a.text() == b.text(),
        a.number() == b.number(),
{
    lemma_span_values();
    lemma2_to64();
    lemma2_to64_rest();
    let kind = a.value_kind;
    let pa = a.value.payload(kind);
    let pb = b.value.payload(kind);
    if kind is Float32 {
        assert(pa < pow2(32) && pb < pow2(32));
        assert(pa == pow2(31) * (pa / pow2(31)) + pa % pow2(31));
        assert(pb == pow2(31) * (pb / pow2(31)) + pb % pow2(31));
    } else if kind is Float64 {
        assert(pa < pow2(64) && pb < pow2(64));
        assert(pa == pow2(63) * (pa / pow2(63)) + pa % pow2(63));
        assert(pb == pow2(63) * (pb / pow2(63)) + pb % pow2(63));
    }
}

/// A single reading of a sensor.
///
/// Each packet consists of a single byte indicating the sensor ID that is in
/// the config file, followed by the values for that sensor.
#[derive(Debug)]
pub struct Packet {
    /// The ID of the sensor that is read.
    pub id: u8,
    /// The values that are read from that sensor.
    ///
    /// The config is required to know the types of the values and how to
    /// retrieve them.
    pub values: Vec<Value>,
}

/// What a [`Packet`] holds, as plain values.
pub struct PacketView {
    pub id: u8,
    pub values: Seq<Value>,
}

impl View for Packet {
    type V = PacketView;

    open spec fn view(&self) -> PacketView {
        PacketView { id: self.id, values: self.values@ }
    }
}

impl Clone for Packet {
    fn clone(&self) -> (copy: Self)
        ensures
            copy@ == self@,
    {
        let mut values: Vec<Value> = Vec::new();
        let mut k: usize = 0;
        while k < self.values.len()
            invariant
                k <= self.values.len(),
                values@ == self.values@.take(k as int),
            decreases self.values.len() - k,
        {
            values.push(self.values[k]);
            assert(values@ =~= self.values@.take(k + 1));
            k += 1;
        }
        assert(self.values@.take(k as int) =~= self.values@);
        Packet { id: self.id, values }
    }
}

/// An error that occurs while parsing a packet.
#[derive(Clone, Copy, Debug, PartialEq, Eq, Structural)]
pub enum PacketError {
    /// The parser tried to read an ID, but that ID was not in the config.
    ///
    /// The contained value is the ID that was read.
    InvalidId(u8),
    /// Some how a parse value had the wrong number of values compared to the
    /// config.
    ///
    /// This is likely only to happen if the packets are loaded with a different
    /// config than the one used to later process the packets.
    InvalidValueCount { actual: usize, expected: usize },
    /// The log ended in the middle of a packet, after its ID byte.
    TruncatedRead,
}

impl PacketError {
    /// The error in words.
    pub open spec fn message(self) -> Seq<char> {
        match self {
            PacketError::InvalidId(id) => "Invalid packet id: "@ + decimal(id as nat),
            PacketError::InvalidValueCount { actual, expected } => "Invalid value count: expected "@
                + decimal(expected as nat) + ", got "@ + decimal(actual as nat),
            PacketError::TruncatedRead => "Truncated read: the data ends inside a packet"@,
        }
    }

    /// The error in words.
    pub fn to_string(&self) -> (text: String)
        ensures
            text@ == self.message(),
    {
        match self {
            PacketError::InvalidId(id) => {
                let mut text = String::from_str("Invalid packet id: ");
                push_decimal(&mut text, *id as u128);
                text
            },
            PacketError::InvalidValueCount { actual, expected } => {
                let mut text = String::from_str("Invalid value count: expected ");
                push_decimal(&mut text, *expected as u128);
                text.append(", got ");
                push_decimal(&mut text, *actual as u128);
                text
            },
            PacketError::TruncatedRead => String::from_str(
                "Truncated read: the data ends inside a packet",
            ),
        }
    }
}

/// One item of a packet stream: a packet, or the reason why none could be
/// read.
pub type Item = Result<Packet, PacketError>;

/// What an [`Item`] holds, as plain values.
pub type ItemView = Result<PacketView, PacketError>;

/// The plain values of an item.
pub open spec fn item_view(item: Item) -> ItemView {
    match item {
        Ok(packet) => Ok(packet@),
        Err(error) => Err(error),
    }
}

/// The packet of `sensor` whose ID byte stands at `pos`: each value is read
/// from the bytes that follow those of the values before it.
pub open spec fn packet_at(
    data: Seq<u8>,
    pos: int,
    sensor: SensorConfigView,
    endianess: Endianess,
) -> PacketView {
    PacketView {
        id: data[pos],
        values: Seq::new(
            sensor.values.len(),
            |k: int|
                Value::decoded(
                    data.subrange(
                        pos + 1 + sensor.payload_width(k as nat),
                        pos + 1 + sensor.payload_width((k + 1) as nat),
                    ),
                    endianess,
                ),
        ),
    }
}

/// One step of the parser: the item that it yields, and where the next step
/// starts.
pub struct Step {
    pub item: ItemView,
    pub next: int,
}

/// The step that the parser takes at `pos`, if the log has not ended there.
///
/// An ID byte that no sensor has yields `InvalidId`, and the next step starts
/// at the byte behind it. A packet that the log is too short to hold yields
/// `TruncatedRead` and uses up what was left of the log.
pub open spec fn step_at(config: RocketConfigView, data: Seq<u8>, pos: int) -> Option<Step> {
    if pos < 0 || pos >= data.len() {
        None
    } else {
        match config.position_of(data[pos]) {
            None => Some(Step { item: Err(PacketError::InvalidId(data[pos])), next: pos + 1 }),
            Some(p) => {
                let sensor = config.sensors[p];
                let end = pos + 1 + sensor.payload_width(sensor.values.len());
                if end > data.len() {
                    Some(Step { item: Err(PacketError::TruncatedRead), next: data.len() as int })
                } else {
                    Some(
                        Step { item: Ok(packet_at(data, pos, sensor, config.endianess)), next: end },
                    )
                }
            },
        }
    }
}

/// All items that the parser yields from `pos` to the end of the log.
pub open spec fn items_from(config: RocketConfigView, data: Seq<u8>, pos: int) -> Seq<ItemView>
    decreases data.len() - pos,
{
    match step_at(config, data, pos) {
        None => Seq::empty(),
        Some(step) => seq![step.item] + items_from(config, data, step.next),
    }
}

/// A step uses up at least the ID byte and never reads beyond the log, so
/// the items of a log are no more than its bytes. A packet that a step yields
/// has the ID that was read and as many values as its sensor.
pub proof fn lemma_step_progress(config: RocketConfigView, data: Seq<u8>, pos: int)
    requires
        0 <= pos <= data.len(),
    ensures
        step_at(config, data, pos) is None <==> pos == data.len(),
        step_at(config, data, pos) matches Some(step) ==> {
            &&& pos < step.next <= data.len()
            &&& step.item matches Ok(packet) ==> {
                &&& packet.id == data[pos]
                &&& config.position_of(packet.id) matches Some(p)
                &&& packet.values.len() == config.sensors[p].values.len()
            }
        },
        items_from(config, data, pos).len() <= data.len() - pos,
    decreases data.len() - pos,
{
    if let Some(step) = step_at(config, data, pos) {
        lemma_step_progress(config, data, step.next);
    }
}

/// The payload of a packet only grows with the number of values.
pub proof fn lemma_payload_width_monotonic(sensor: SensorConfigView, fewer: nat, more: nat)
    requires
        fewer <= more <= sensor.values.len(),
    ensures
        sensor.payload_width(fewer) <= sensor.payload_width(more),
    decreases more,
{
    if fewer < more {
        lemma_payload_width_monotonic(sensor, fewer, (more - 1) as nat);
    }
}

/// A parser for reading packets from the bytes of a log.
///
/// This struct takes the bytes and presents a pull interface that can be used
/// to read packets individually.
///
/// The parser never gives up on a log. After `InvalidId` it goes on at the
/// byte behind the unknown ID; whether that byte starts a packet nobody can
/// tell, so a caller that wants reliable rows stops at the first error. After
/// `TruncatedRead` nothing is left to read.
pub struct PacketParser {
    /// The bytes of the log.
    data: Vec<u8>,
    /// How many bytes of the log have been read.
    pos: usize,
    /// The configuration used to know how many values and what kind of values
    /// to read.
    config: RocketConfig,
}

impl PacketParser {
    #[verifier::type_invariant]
    spec fn within_log(self) -> bool {
        self.pos <= self.data.len()
    }

    /// The bytes of the log.
    pub closed spec fn bytes(&self) -> Seq<u8> {
        self.data@
    }

    /// How many bytes of the log have been read.
    pub closed spec fn position(&self) -> int {
        self.pos as int
    }

    /// The configuration by which the log is read.
    pub closed spec fn config(&self) -> RocketConfigView {
        self.config@
    }

    /// Create a new packet parser from the bytes of a log and a config.
    pub fn new(data: Vec<u8>, config: RocketConfig) -> (parser: Self)
        ensures
            parser.bytes() == data@,
            parser.position() == 0,
            parser.config() == config@,
    {
        Self { data, pos: 0, config }
    }

    /// Reads one value at `pos` and moves `pos` behind it. Where the log is
    /// too short for the value, `pos` moves to the end of the log.
    fn read_value(data: &Vec<u8>, pos: &mut usize, value_config: &ValueConfig, endianess: Endianess) -> (read:
        Result<Value, PacketError>)
        requires
            *old(pos) <= data.len(),
        ensures
            *old(pos) + value_config.data_type.width() <= data.len() ==> {
                &&& read == Ok::<Value, PacketError>(
                    Value::decoded(
                        data@.subrange(
                            *old(pos) as int,
                            *old(pos) + value_config.data_type.width(),
                        ),
                        endianess,
                    ),
                )
                &&& *final(pos) == *old(pos) + value_config.data_type.width()
            },
            *old(pos) + value_config.data_type.width() > data.len() ==> {
                &&& read == Err::<Value, PacketError>(PacketError::TruncatedRead)
                &&& *final(pos) == data.len()
            },
    {
        let width: usize = value_config.data_type.byte_width();
        if width > data.len() - *pos {
            *pos = data.len();
            return Err(PacketError::TruncatedRead);
        }
        let bits: u64 = read_number(data.as_slice(), *pos, width, endianess);
        *pos = *pos + width;
        Ok(Value { bits })
    }

    /// Reads the next packet, if the log has not ended.
    ///
    /// The result is `None` exactly at the end of the log. Else the parser
    /// reads one ID byte and then the values of the sensor with that ID, and
    /// yields them as a packet, or yields the error that [`step_at`] names.
    pub fn next(&mut self) -> (item: Option<Item>)
        ensures
            final(self).bytes() == old(self).bytes(),
            final(self).config() == old(self).config(),
            match step_at(old(self).config(), old(self).bytes(), old(self).position()) {
                None => item is None && final(self).position() == old(self).position(),
                Some(step) => {
                    &&& item matches Some(found)
                    &&& item_view(found) == step.item
                    &&& final(self).position() == step.next
                },
            },
    {
        proof {
            use_type_invariant(&*self);
        }
        let start: usize = self.pos;
        if start >= self.data.len() {
            return None;
        }
        let id: u8 = self.data[start];
        let Some(sensor) = self.config.get_sensor_by_id(id) else {
            self.pos = start + 1;
            return Some(Err(PacketError::InvalidId(id)));
        };
        let ghost place = self.config@.position_of(id)->0;
        let ghost model = self.config@.sensors[place];
        assert(model == sensor@);
        let endianess: Endianess = self.config.endianess;
        let count: usize = sensor.values.len();
        let mut values: Vec<Value> = Vec::with_capacity(count);
        let mut pos: usize = start + 1;
        let mut k: usize = 0;
        while k < count
            invariant
                k <= count == sensor.values.len(),
                model == sensor@,
                start < self.data.len(),
                start == old(self).pos,
                id == self.data@[start as int],
                self.config@.position_of(id) == Some(place),
                model == self.config@.sensors[place],
                endianess == self.config@.endianess,
                pos == start + 1 + model.payload_width(k as nat),
                pos <= self.data.len(),
                values@.len() == k,
                forall|j: int|
                    0 <= j < k ==> values@[j] == #[trigger] packet_at(
                        self.data@,
                        start as int,
                        model,
                        endianess,
                    ).values[j],
                *self == *old(self),
            decreases count - k,
        {
            match Self::read_value(&self.data, &mut pos, &sensor.values[k], endianess) {
                Ok(value) => {
                    proof {
                        assert(model.values[k as int].data_type == sensor.values@[k as int].data_type);
                        assert(model.payload_width((k + 1) as nat) == model.payload_width(k as nat)
                            + model.values[k as int].data_type.width());
                    }
                    values.push(value);
                },
                Err(error) => {
                    proof {
                        assert(model.values[k as int].data_type == sensor.values@[k as int].data_type);
                        assert(model.payload_width((k + 1) as nat) == model.payload_width(k as nat)
                            + model.values[k as int].data_type.width());
                        lemma_payload_width_monotonic(model, (k + 1) as nat, count as nat);
                    }
                    self.pos = self.data.len();
                    return Some(Err(error));
                },
            }
            k += 1;
        }
        self.pos = pos;
        let packet = Packet { id, values };
        assert(packet@.values =~= packet_at(self.data@, start as int, model, endianess).values);
        Some(Ok(packet))
    }
}

impl SourceIterator for PacketParser {
    /// The items that are still to come: what [`items_from`] reads from the
    /// rest of the log.
    open spec fn pending(&self) -> Seq<ItemView> {
        items_from(self.config(), self.bytes(), self.position())
    }

    fn next(&mut self) -> (item: Option<Item>) {
        let item = PacketParser::next(self);
        proof {
            let step = step_at(old(self).config(), old(self).bytes(), old(self).position());
            if let Some(step) = step {
                assert(old(self).pending().drop_first() =~= self.pending());
            }
        }
        item
    }
}

} // verus!
