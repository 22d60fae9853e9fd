//! The description of a rocket: its sensors, their values and the byte order
//! of the log.

use crate::text::{decimal, push_decimal};
use std::collections::HashSet;
use vstd::prelude::*;

verus! {

/// The type of a single scalar value.
#[derive(Clone, Copy, Debug, PartialEq, Eq, Structural)]
pub enum ValueKind {
    Int8,
    Int16,
    Int32,
    Int64,
    UInt8,
    UInt16,
    UInt32,
    UInt64,
    Float32,
    Float64,
}

impl ValueKind {
    /// Number of bytes that a value of this kind takes in the log.
    pub open spec fn width(self) -> nat {
        match self {
            ValueKind::Int8 | ValueKind::UInt8 => 1,
            ValueKind::Int16 | ValueKind::UInt16 => 2,
            ValueKind::Int32 | ValueKind::UInt32 | ValueKind::Float32 => 4,
            ValueKind::Int64 | ValueKind::UInt64 | ValueKind::Float64 => 8,
        }
    }

    /// Whether the kind is a two's complement integer.
    pub open spec fn is_signed(self) -> bool {
        self is Int8 || self is Int16 || self is Int32 || self is Int64
    }

    /// Whether the kind is an IEEE-754 binary float.
    pub open spec fn is_float(self) -> bool {
        self is Float32 || self is Float64
    }

    /// The tag by which the kind is written in a configuration file.
    pub open spec fn tag(self) -> Seq<char> {
        match self {
            ValueKind::Int8 => "int_8"@,
            ValueKind::Int16 => "int_16"@,
            ValueKind::Int32 => "int_32"@,
            ValueKind::Int64 => "int_64"@,
            ValueKind::UInt8 => "uint_8"@,
            ValueKind::UInt16 => "uint_16"@,
            ValueKind::UInt32 => "uint_32"@,
            ValueKind::UInt64 => "uint_64"@,
            ValueKind::Float32 => "float_32"@,
            ValueKind::Float64 => "float_64"@,
        }
    }

    /// Number of bytes that a value of this kind takes in the log.
    pub fn byte_width(&self) -> (w: usize)
        ensures
            w == self.width(),
    {
        match self {
            ValueKind::Int8 | ValueKind::UInt8 => 1,
            ValueKind::Int16 | ValueKind::UInt16 => 2,
            ValueKind::Int32 | ValueKind::UInt32 | ValueKind::Float32 => 4,
            ValueKind::Int64 | ValueKind::UInt64 | ValueKind::Float64 => 8,
        }
    }

    /// The tag by which the kind is written in a configuration file.
    pub fn to_string(&self) -> (text: String)
        ensures
            text@ == self.tag(),
    {
        let tag: &str = match self {
            ValueKind::Int8 => "int_8",
            ValueKind::Int16 => "int_16",
            ValueKind::Int32 => "int_32",
            ValueKind::Int64 => "int_64",
            ValueKind::UInt8 => "uint_8",
            ValueKind::UInt16 => "uint_16",
            ValueKind::UInt32 => "uint_32",
            ValueKind::UInt64 => "uint_64",
            ValueKind::Float32 => "float_32",
            ValueKind::Float64 => "float_64",
        };
        String::from_str(tag)
    }
}

/// A single value.
#[derive(Debug)]
pub struct ValueConfig {
    /// The name of the value.
    pub name: String,
    /// The kind of data that is read and stored.
    ///
    /// This is important as different kinds of value may have a different
    /// number of bytes.
    pub data_type: ValueKind,
}

/// What a [`ValueConfig`] says, as plain values.
pub struct ValueConfigView {
    pub name: Seq<char>,
    pub data_type: ValueKind,
}

impl View for ValueConfig {
    type V = ValueConfigView;

    open spec fn view(&self) -> ValueConfigView {
        ValueConfigView { name: self.name@, data_type: self.data_type }
    }
}

impl Clone for ValueConfig {
    fn clone(&self) -> (copy: Self)
        ensures
            copy@ == self@,
    {
        ValueConfig { name: self.name.clone(), data_type: self.data_type }
    }
}

/// Configuration for data from a sensor.
///
/// A sensor in the sense of this file format is simply a collection of values
/// that are read at the same time.
#[derive(Debug)]
pub struct SensorConfig {
    /// The name of the sensor.
    pub name: String,
    /// The ID of this sensor in the rocket config.
    pub id: u8,
    /// The values that this sensor reads.
    pub values: Vec<ValueConfig>,
}

/// What a [`SensorConfig`] says, as plain values.
pub struct SensorConfigView {
    pub name: Seq<char>,
    pub id: u8,
    pub values: Seq<ValueConfigView>,
}

impl View for SensorConfig {
    type V = SensorConfigView;

    open spec fn view(&self) -> SensorConfigView {
        SensorConfigView {
            name: self.name@,
            id: self.id,
            values: self.values@.map_values(|v: ValueConfig| v@),
        }
    }
}

impl Clone for SensorConfig {
    fn clone(&self) -> (copy: Self)
        ensures
            copy@ == self@,
    {
        let mut values: Vec<ValueConfig> = Vec::new();
        let mut k: usize = 0;
        while k < self.values.len()
            invariant
                k <= self.values.len(),
                values@.len() == k,
                forall|j: int| 0 <= j < k ==> #[trigger] values@[j]@ == self.values@[j]@,
            decreases self.values.len() - k,
        {
            values.push(self.values[k].clone());
            k += 1;
        }
        let copy = SensorConfig { name: self.name.clone(), id: self.id, values };
        assert(copy@.values =~= self@.values);
        copy
    }
}

impl SensorConfigView {
    /// Number of payload bytes of one packet of this sensor: the widths of
    /// its first `count` values, added up.
    pub open spec fn payload_width(self, count: nat) -> nat
        decreases count,
    {
        if count == 0 || count > self.values.len() {
            0
        } else {
            self.payload_width((count - 1) as nat) + self.values[count - 1].data_type.width()
        }
    }
}

/// The endianess of all values in the resulting binary file.
///
/// This allows easier implementation on various platforms where the endianness
/// of the chip can be used instead of forcing the limited resources of the
/// embedded device to do the conversion.
#[derive(Clone, Copy, Debug, PartialEq, Eq, Structural)]
pub enum Endianess {
    /// Multi byte values are reversed.
    Little,
    /// Multi byte values are not reversed.
    ///
    /// This is the default value.
    Big,
}

impl Endianess {
    /// Check if the endianess is big endian.
    #[inline]
    pub fn is_big(&self) -> (big: bool)
        ensures
            big == (*self == Endianess::Big),
    {
        matches!(self, Endianess::Big)
    }
}

impl Default for Endianess {
    #[inline]
    fn default() -> (endianess: Self)
        ensures
            endianess == Endianess::Big,
    {
        Endianess::Big
    }
}

/// Why a configuration is not usable.
#[derive(Clone, Copy, Debug, PartialEq, Eq, Structural)]
pub enum ConfigError {
    /// Two sensors share the contained ID.
    DuplicateSensorId(u8),
}

impl ConfigError {
    /// The error in words.
    pub open spec fn message(self) -> Seq<char> {
        match self {
            ConfigError::DuplicateSensorId(id) => "Multiple sensors with ID: "@ + decimal(id as nat),
        }
    }

    /// The error in words.
    pub fn to_string(&self) -> (text: String)
        ensures
            text@ == self.message(),
    {
        match self {
            ConfigError::DuplicateSensorId(id) => {
                let mut text = String::from_str("Multiple sensors with ID: ");
                push_decimal(&mut text, *id as u128);
                text
            },
        }
    }
}

/// Configuration for a single rocket.
#[derive(Debug)]
pub struct RocketConfig {
    /// The name of the rocket that is launching.
    ///
    /// This should be a standard value that doesn't have any spaces and could
    /// be used as a unique identifier.
    pub name: String,
    /// The sensors that are on the rocket
    pub sensors: Vec<SensorConfig>,
    /// The endianess of all values in the data log binary file.
    pub endianess: Endianess,
    /// The display name of the rocket, if different from the name field.
    ///
    /// This field is only used for report generating purposes.
    pub display_name: Option<String>,
    /// A description of the rocket.
    ///
    /// This should start with a complete sentence so that it can be placed in
    /// a sentence in the generated report and fit in. For example starting with
    /// "The rocket is..." or "Xenia-2 is...", or something to that effect.
    pub description: Option<String>,
}

/// What a [`RocketConfig`] says, as plain values.
pub struct RocketConfigView {
    pub name: Seq<char>,
    pub sensors: Seq<SensorConfigView>,
    pub endianess: Endianess,
    pub display_name: Option<Seq<char>>,
    pub description: Option<Seq<char>>,
}

impl View for RocketConfig {
    type V = RocketConfigView;

    open spec fn view(&self) -> RocketConfigView {
        RocketConfigView {
            name: self.name@,
            sensors: self.sensors@.map_values(|s: SensorConfig| s@),
            endianess: self.endianess,
            display_name: match self.display_name {
                Some(text) => Some(text@),
                None => None,
            },
            description: match self.description {
                Some(text) => Some(text@),
                None => None,
            },
        }
    }
}

impl Clone for RocketConfig {
    fn clone(&self) -> (copy: Self)
        ensures
            copy@ == self@,
    {
        let mut sensors: Vec<SensorConfig> = Vec::new();
        let mut s: usize = 0;
        while s < self.sensors.len()
            invariant
                s <= self.sensors.len(),
                sensors@.len() == s,
                forall|j: int| 0 <= j < s ==> #[trigger] sensors@[j]@ == self.sensors@[j]@,
            decreases self.sensors.len() - s,
        {
            sensors.push(self.sensors[s].clone());
            s += 1;
        }
        let display_name = match &self.display_name {
            Some(text) => Some(text.clone()),
            None => None,
        };
        let description = match &self.description {
            Some(text) => Some(text.clone()),
            None => None,
        };
        let copy = RocketConfig {
            name: self.name.clone(),
            sensors,
            endianess: self.endianess,
            display_name,
            description,
        };
        assert(copy@.sensors =~= self@.sensors);
        copy
    }
}

impl RocketConfigView {
    /// No two sensors share an ID.
    pub open spec fn ids_unique(self) -> bool {
        forall|i: int, j: int|
            0 <= i < j < self.sensors.len() ==> self.sensors[i].id != self.sensors[j].id
    }

    /// One of the first `end` sensors has the given ID.
    pub open spec fn id_before(self, id: u8, end: int) -> bool {
        exists|i: int| 0 <= i < end && i < self.sensors.len() && self.sensors[i].id == id
    }

    /// The sensor at `index` has the ID of a sensor that stands before it.
    pub open spec fn repeats_id(self, index: int) -> bool {
        self.id_before(self.sensors[index].id, index)
    }

    /// The sensor at `index` is the first one, in declared order, that has
    /// the ID of a sensor before it.
    pub open spec fn first_repeat(self, index: int) -> bool {
        &&& 0 <= index < self.sensors.len()
        &&& self.repeats_id(index)
        &&& forall|k: int| 0 <= k < index ==> !self.repeats_id(k)
    }

    /// Position of the first sensor at or after `start` that has the given
    /// ID, if there is one.
    pub open spec fn position_from(self, id: u8, start: int) -> Option<int>
        decreases self.sensors.len() - start,
    {
        if start < 0 || start >= self.sensors.len() {
            None
        } else if self.sensors[start].id == id {
            Some(start)
        } else {
            self.position_from(id, start + 1)
        }
    }

    /// Position of the first sensor that has the given ID, if there is one.
    pub open spec fn position_of(self, id: u8) -> Option<int> {
        self.position_from(id, 0)
    }

    /// The name shown for the rocket: the display name where one is set,
    /// else the name.
    pub open spec fn shown_name(self) -> Seq<char> {
        match self.display_name {
            Some(text) => text,
            None => self.name,
        }
    }
}

/// `position_from` finds the least position at or after `start` whose sensor
/// has the ID, and finds none exactly when no such sensor exists.
pub proof fn lemma_position_from(config: RocketConfigView, id: u8, start: int)
    requires
        0 <= start <= config.sensors.len(),
    ensures
        match config.position_from(id, start) {
            Some(p) => {
                &&& start <= p < config.sensors.len()
                &&& config.sensors[p].id == id
                &&& forall|i: int| start <= i < p ==> config.sensors[i].id != id
            },
            None => forall|i: int| start <= i < config.sensors.len() ==> config.sensors[i].id != id,
        },
    decreases config.sensors.len() - start,
{
    if start < config.sensors.len() && config.sensors[start].id != id {
        lemma_position_from(config, id, start + 1);
    }
}

/// A sensor that repeats an earlier ID shows that the IDs are not unique.
pub proof fn lemma_repeat_breaks_uniqueness(config: RocketConfigView, index: int)
    requires
        0 <= index < config.sensors.len(),
        config.repeats_id(index),
    ensures
        !config.ids_unique(),
{
    let i = choose|i: int|
        0 <= i < index && i < config.sensors.len() && config.sensors[i].id
            == config.sensors[index].id;
    assert(config.sensors[i].id == config.sensors[index].id);
}

/// Where no sensor repeats an earlier ID, the IDs are unique.
pub proof fn lemma_no_repeat_is_unique(config: RocketConfigView)
    requires
        forall|k: int| 0 <= k < config.sensors.len() ==> !config.repeats_id(k),
    ensures
        config.ids_unique(),
{
    assert forall|i: int, j: int| 0 <= i < j < config.sensors.len() implies config.sensors[i].id
        != config.sensors[j].id by {
        assert(!config.repeats_id(j));
    }
}

impl RocketConfig {
    /// Validate the configuration.
    ///
    /// Currently this checks that there are no duplicate sensor IDs. The error
    /// names the ID of the first sensor, in declared order, that repeats the ID
    /// of an earlier one.
    pub fn validate(&self) -> (checked: Result<(), ConfigError>)
        ensures
            checked is Ok <==> self@.ids_unique(),
            checked matches Err(ConfigError::DuplicateSensorId(id)) ==> exists|j: int|
                #[trigger] self@.first_repeat(j) && self@.sensors[j].id == id,
    {
        let mut ids: HashSet<u8> = HashSet::new();
        let mut index: usize = 0;
        while index < self.sensors.len()
            invariant
                0 <= index <= self.sensors.len(),
                forall|k: int| 0 <= k < index ==> !self@.repeats_id(k),
                forall|id: u8| ids@.contains(id) <==> self@.id_before(id, index as int),
            decreases self.sensors.len() - index,
        {
            let id: u8 = self.sensors[index].id;
            if ids.contains(&id) {
                proof {
                    assert(self@.id_before(id, index as int));
                    assert(self@.first_repeat(index as int));
                    lemma_repeat_breaks_uniqueness(self@, index as int);
                }
                return Err(ConfigError::DuplicateSensorId(id));
            }
            ids.insert(id);
            proof {
                let config = self@;
                assert forall|other: u8|
                    (other == id || config.id_before(other, index as int)) <==> config.id_before(
                        other,
                        index + 1,
                    ) by {
                    if other == id {
                        assert(config.sensors[index as int].id == other);
                    }
                    if config.id_before(other, index + 1) && other != id {
                        let i = choose|i: int|
                            0 <= i < index + 1 && i < config.sensors.len() && config.sensors[i].id
                                == other;
                        assert(i < index);
                    }
                }
            }
            index += 1;
        }
        proof {
            lemma_no_repeat_is_unique(self@);
        }
        Ok(())
    }

    /// Get the display name of the rocket from either the optional display name
    /// field or the name field if the display name field is not set.
    pub fn display_name(&self) -> (shown: &String)
        ensures
            shown@ == self@.shown_name(),
    {
        match &self.display_name {
            Some(name) => name,
            None => &self.name,
        }
    }

    /// Position of the first sensor with the given ID, if it exists.
    pub fn position_of_id(&self, id: u8) -> (found: Option<usize>)
        ensures
            match found {
                Some(p) => self@.position_of(id) == Some(p as int) && p < self.sensors@.len(),
                None => self@.position_of(id) is None,
            },
    {
        let mut index: usize = 0;
        while index < self.sensors.len()
            invariant
                0 <= index <= self.sensors.len(),
                self@.position_of(id) == self@.position_from(id, index as int),
            decreases self.sensors.len() - index,
        {
            if self.sensors[index].id == id {
                return Some(index);
            }
            index += 1;
        }
        None
    }

    /// Get the sensor configuration based on an ID, if it exists.
    ///
    /// Where several sensors share the ID, this is the first of them.
    pub fn get_sensor_by_id(&self, id: u8) -> (found: Option<&SensorConfig>)
        ensures
            match found {
                Some(sensor) => {
                    &&& self@.position_of(id) matches Some(p)
                    &&& 0 <= p < self.sensors@.len()
                    &&& *sensor == self.sensors@[p]
                    &&& sensor.id == id
                },
                None => self@.position_of(id) is None,
            },
            found is Some <==> self@.id_before(id, self@.sensors.len() as int),
    {
        proof {
            lemma_position_from(self@, id, 0);
            if self@.id_before(id, self@.sensors.len() as int) {
                let i = choose|i: int|
                    0 <= i < self@.sensors.len() && i < self@.sensors.len() && self@.sensors[i].id
                        == id;
                assert(self@.sensors[i].id == id);
            }
        }
        match self.position_of_id(id) {
            Some(p) => {
                proof {
                    lemma_position_from(self@, id, 0);
                }
                Some(&self.sensors[p])
            },
            None => None,
        }
    }
}

/// With unique IDs, a sensor that has the wanted ID is the one that the
/// lookup finds; and whatever the IDs, the lookup finds nothing exactly when
/// no sensor has the ID.
pub proof fn lemma_lookup_unique(config: RocketConfigView, id: u8, index: int)
    requires
        0 <= index < config.sensors.len(),
        config.sensors[index].id == id,
    ensures
        config.position_of(id) is Some,
        config.position_of(id)->0 <= index,
        config.ids_unique() ==> config.position_of(id) == Some(index),
{
    lemma_position_from(config, id, 0);
}

} // verus!
