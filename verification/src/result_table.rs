//! Grouping packets into the rows of a table.

use crate::configuration::{
    RocketConfig, RocketConfigView, SensorConfig, SensorConfigView, ValueConfig,
};
use crate::data::{item_view, Item, ItemView, Packet, PacketError, TypedValue, Value};
use crate::text::{lemma_texts_push, texts};
use vstd::prelude::*;

verus! {

/// A source of packets: a finite run of items that is handed out one by one.
pub trait SourceIterator {
    /// The items that are still to come, in order.
    spec fn pending(&self) -> Seq<ItemView>;

    /// Hands out the first of the pending items, or `None` when there is none
    /// left.
    fn next(&mut self) -> (item: Option<Item>)
        ensures
            match item {
                None => old(self).pending().len() == 0 && final(self).pending().len() == 0,
                Some(found) => {
                    &&& old(self).pending().len() > 0
                    &&& item_view(found) == old(self).pending()[0]
                    &&& final(self).pending() == old(self).pending().drop_first()
                },
            },
    ;
}

/// A source that hands out the items of a list.
pub struct PacketList {
    /// The items that are left, the next one last.
    rest: Vec<Item>,
}

impl PacketList {
    /// A source that hands out the given packets, first to last.
    pub fn new(packets: Vec<Packet>) -> (list: Self)
        ensures
            list.pending() == packets@.map_values(|packet: Packet| Ok::<_, PacketError>(packet@)),
    {
        let mut packets = packets;
        let ghost all = packets@;
        let mut rest: Vec<Item> = Vec::new();
        while packets.len() > 0
            invariant
                packets@.len() + rest@.len() == all.len(),
                packets@ == all.take(packets@.len() as int),
                forall|i: int|
                    0 <= i < rest@.len() ==> item_view(#[trigger] rest@[i]) == Ok::<_, PacketError>(
                        all[all.len() - 1 - i]@,
                    ),
            decreases packets.len(),
        {
            let packet = packets.pop().unwrap();
            assert(packets@ =~= all.take(packets@.len() as int));
            rest.push(Ok(packet));
        }
        let list = Self { rest };
        assert(list.pending() =~= all.map_values(|packet: Packet| Ok::<_, PacketError>(packet@)));
        list
    }

    /// A source that hands out the given items, first to last.
    pub fn from_items(items: Vec<Item>) -> (list: Self)
        ensures
            list.pending() == items@.map_values(|item: Item| item_view(item)),
    {
        let mut items = items;
        let ghost all = items@;
        let mut rest: Vec<Item> = Vec::new();
        while items.len() > 0
            invariant
                items@.len() + rest@.len() == all.len(),
                items@ == all.take(items@.len() as int),
                forall|i: int| 0 <= i < rest@.len() ==> #[trigger] rest@[i] == all[all.len() - 1 - i],
            decreases items.len(),
        {
            let item = items.pop().unwrap();
            assert(items@ =~= all.take(items@.len() as int));
            rest.push(item);
        }
        let list = Self { rest };
        assert(list.pending() =~= all.map_values(|item: Item| item_view(item)));
        list
    }
}

impl SourceIterator for PacketList {
    closed spec fn pending(&self) -> Seq<ItemView> {
        Seq::new(self.rest@.len(), |i: int| item_view(self.rest@[self.rest@.len() - 1 - i]))
    }

    fn next(&mut self) -> (item: Option<Item>) {
        let item = self.rest.pop();
        proof {
            if item is Some {
                assert(self.pending() =~= old(self).pending().drop_first());
            }
        }
        item
    }
}

/// One row of the table: a slot for each column, empty where no packet of
/// the row gave the column a value.
pub type Row = Vec<Option<TypedValue>>;

/// What comes out of one pull at the table, as plain values.
pub type RowView = Option<Result<Seq<Option<TypedValue>>, PacketError>>;

/// The values that the row under construction holds so far, by column name.
pub type Cells = Map<Seq<char>, TypedValue>;

/// The plain values of what comes out of one pull at the table.
pub open spec fn row_view(row: Option<Result<Row, PacketError>>) -> RowView {
    match row {
        None => None,
        Some(Err(error)) => Some(Err(error)),
        Some(Ok(slots)) => Some(Ok(slots@)),
    }
}

/// The name of the column of a value: the sensor's name, an underscore, the
/// value's name.
pub open spec fn column_title(sensor_name: Seq<char>, value_name: Seq<char>) -> Seq<char> {
    sensor_name + seq!['_'] + value_name
}

/// The name of the column of the sensor's value at `place`.
pub open spec fn sensor_column(sensor: SensorConfigView, place: int) -> Seq<char> {
    column_title(sensor.name, sensor.values[place].name)
}

/// The names of the columns of a sensor, in the order of its values.
pub open spec fn sensor_columns(sensor: SensorConfigView) -> Seq<Seq<char>> {
    Seq::new(sensor.values.len(), |place: int| sensor_column(sensor, place))
}

/// The names of the columns of the first `count` sensors.
pub open spec fn columns_of_first(config: RocketConfigView, count: nat) -> Seq<Seq<char>>
    decreases count,
{
    if count == 0 || count > config.sensors.len() {
        Seq::empty()
    } else {
        columns_of_first(config, (count - 1) as nat) + sensor_columns(config.sensors[count - 1])
    }
}

/// The names of all columns of the table: sensors in declared order, the
/// values of each sensor in declared order.
pub open spec fn column_names(config: RocketConfigView) -> Seq<Seq<char>> {
    columns_of_first(config, config.sensors.len())
}

/// One of the sensor's columns has a value in `cells` already.
pub open spec fn clashes(cells: Cells, sensor: SensorConfigView) -> bool {
    exists|place: int|
        0 <= place < sensor.values.len() && cells.contains_key(
            #[trigger] sensor_column(sensor, place),
        )
}

/// `cells` after the first `count` values of a packet of `sensor` have been
/// written to their columns, each with the kind that the sensor gives it.
pub open spec fn placed(cells: Cells, sensor: SensorConfigView, values: Seq<Value>, count: nat) -> Cells
    decreases count,
{
    if count == 0 {
        cells
    } else {
        placed(cells, sensor, values, (count - 1) as nat).insert(
            sensor_column(sensor, count - 1),
            TypedValue { value: values[count - 1], value_kind: sensor.values[count - 1].data_type },
        )
    }
}

/// The row that `cells` gives over the given columns.
pub open spec fn projected(cells: Cells, columns: Seq<Seq<char>>) -> Seq<Option<TypedValue>> {
    Seq::new(
        columns.len(),
        |slot: int|
            if cells.contains_key(columns[slot]) {
                Some(cells[columns[slot]])
            } else {
                None
            },
    )
}

/// How the gathering of one row ends: with the cells of the row or with an
/// error, and with the items that are left for the rows after it.
pub struct Gathered {
    pub outcome: Result<Cells, PacketError>,
    pub rest: Seq<ItemView>,
}

/// Gathers packets from the front of `queue` into `cells` until the row is
/// complete.
///
/// - An item that is an error ends the row with that error.
/// - A packet of an unknown sensor ends it with `InvalidId`, one with another
///   number of values than its sensor has with `InvalidValueCount`.
/// - A packet of which a column is filled already belongs to the next row:
///   it stays in the queue, and the row is complete.
/// - Any other packet is written to its columns, and gathering goes on.
/// - At the end of the queue the row is complete.
///
/// An item that ends the row with an error is used up, and so are the cells
/// gathered before it.
pub open spec fn gather(config: RocketConfigView, cells: Cells, queue: Seq<ItemView>) -> Gathered
    decreases queue.len(),
{
    if queue.len() == 0 {
        Gathered { outcome: Ok(cells), rest: queue }
    } else {
        match queue[0] {
            Err(error) => Gathered { outcome: Err(error), rest: queue.drop_first() },
            Ok(packet) => match config.position_of(packet.id) {
                None => Gathered {
                    outcome: Err(PacketError::InvalidId(packet.id)),
                    rest: queue.drop_first(),
                },
                Some(p) => {
                    let sensor = config.sensors[p];
                    if packet.values.len() != sensor.values.len() {
                        Gathered {
                            outcome: Err(
                                PacketError::InvalidValueCount {
                                    actual: packet.values.len() as usize,
                                    expected: sensor.values.len() as usize,
                                },
                            ),
                            rest: queue.drop_first(),
                        }
                    } else if clashes(cells, sensor) {
                        Gathered { outcome: Ok(cells), rest: queue }
                    } else {
                        gather(
                            config,
                            placed(cells, sensor, packet.values, sensor.values.len()),
                            queue.drop_first(),
                        )
                    }
                },
            },
        }
    }
}

/// What one pull at the table gives, and the items that are left after it.
pub struct Pulled {
    pub row: RowView,
    pub rest: Seq<ItemView>,
}

/// One pull at the table: gathers a row from the front of `queue`.
///
/// The pull gives the error that ended the gathering, or the gathered cells
/// laid out over all columns of the table, or `None` where nothing was
/// gathered: then the queue is used up.
pub open spec fn next_row(config: RocketConfigView, queue: Seq<ItemView>) -> Pulled {
    let gathered = gather(config, Map::empty(), queue);
    Pulled {
        row: match gathered.outcome {
            Err(error) => Some(Err(error)),
            Ok(cells) => if cells.dom() =~= Set::empty() {
                None
            } else {
                Some(Ok(projected(cells, column_names(config))))
            },
        },
        rest: gathered.rest,
    }
}

/// Gathering never makes the queue longer. It uses up at least one item where
/// it ends with an error or changes the cells, and it leaves an item behind
/// only where the cells hold a value.
pub proof fn lemma_gather_progress(config: RocketConfigView, cells: Cells, queue: Seq<ItemView>)
    ensures
        gather(config, cells, queue).rest.len() <= queue.len(),
        gather(config, cells, queue).outcome is Err ==> gather(config, cells, queue).rest.len()
            < queue.len(),
        gather(config, cells, queue).outcome matches Ok(gathered) ==> {
            &&& gather(config, cells, queue).rest.len() == queue.len() ==> gathered == cells
            &&& gather(config, cells, queue).rest.len() > 0 ==> !(gathered.dom() =~= Set::empty())
        },
    decreases queue.len(),
{
    if queue.len() > 0 {
        if let Ok(packet) = queue[0] {
            if let Some(p) = config.position_of(packet.id) {
                let sensor = config.sensors[p];
                if packet.values.len() == sensor.values.len() {
                    if clashes(cells, sensor) {
                        let place = choose|place: int|
                            0 <= place < sensor.values.len() && cells.contains_key(
                                #[trigger] sensor_column(sensor, place),
                            );
                        assert(cells.dom().contains(sensor_column(sensor, place)));
                    } else {
                        lemma_gather_progress(
                            config,
                            placed(cells, sensor, packet.values, sensor.values.len()),
                            queue.drop_first(),
                        );
                    }
                }
            }
        }
    }
}

/// A pull that gives a row or an error uses up at least one item, and a pull
/// that gives nothing leaves no item: pulling comes to an end.
pub proof fn lemma_pull_progress(config: RocketConfigView, queue: Seq<ItemView>)
    ensures
        next_row(config, queue).rest.len() <= queue.len(),
        next_row(config, queue).row is Some ==> next_row(config, queue).rest.len() < queue.len(),
        next_row(config, queue).row is None ==> next_row(config, queue).rest.len() == 0,
{
    lemma_gather_progress(config, Map::empty(), queue);
    let gathered = gather(config, Map::empty(), queue);
    if let Ok(cells) = gathered.outcome {
        if gathered.rest.len() == queue.len() {
            assert(cells == Map::<Seq<char>, TypedValue>::empty());
            assert(cells.dom() =~= Set::empty());
        }
    }
}

/// A row has one slot for each column of the table, whatever came in.
pub proof fn lemma_row_width(config: RocketConfigView, queue: Seq<ItemView>)
    ensures
        next_row(config, queue).row matches Some(Ok(slots)) ==> slots.len() == column_names(
            config,
        ).len(),
{
}

/// The column names are a function of the configuration: two lists of names
/// derived from one configuration read the same, name by name.
pub proof fn lemma_columns_deterministic(
    config: RocketConfigView,
    first: Seq<String>,
    second: Seq<String>,
)
    requires
        texts(first) == column_names(config),
        texts(second) == column_names(config),
    ensures
        first.len() == second.len(),
        forall|i: int| 0 <= i < first.len() ==> first[i]@ == second[i]@,
{
    assert(texts(first).len() == first.len());
    assert(texts(second).len() == second.len());
    assert forall|i: int| 0 <= i < first.len() implies first[i]@ == second[i]@ by {
        assert(texts(first)[i] == first[i]@);
        assert(texts(second)[i] == second[i]@);
    }
}

/// The rows of a table up to its end or to the first error; and that error,
/// if the table ended by one.
pub struct Table {
    pub rows: Seq<Seq<Option<TypedValue>>>,
    pub failure: Option<PacketError>,
}

/// The rows that pull after pull at the table gives from the items of
/// `queue`.
pub open spec fn all_rows(config: RocketConfigView, queue: Seq<ItemView>) -> Table
    decreases queue.len(),
{
    let pulled = next_row(config, queue);
    match pulled.row {
        None => Table { rows: Seq::empty(), failure: None },
        Some(Err(error)) => Table { rows: Seq::empty(), failure: Some(error) },
        Some(Ok(slots)) => if pulled.rest.len() < queue.len() {
            let after = all_rows(config, pulled.rest);
            Table { rows: seq![slots] + after.rows, failure: after.failure }
        } else {
            Table { rows: Seq::empty(), failure: None }
        },
    }
}

/// Number of columns of the first `count` sensors.
pub open spec fn column_offset(config: RocketConfigView, count: nat) -> nat
    decreases count,
{
    if count == 0 || count > config.sensors.len() {
        0
    } else {
        column_offset(config, (count - 1) as nat) + config.sensors[count - 1].values.len()
    }
}

/// The columns of the first `count` sensors are as many as their values.
pub proof fn lemma_column_count(config: RocketConfigView, count: nat)
    requires
        count <= config.sensors.len(),
    ensures
        columns_of_first(config, count).len() == column_offset(config, count),
    decreases count,
{
    if count > 0 {
        lemma_column_count(config, (count - 1) as nat);
    }
}

/// The column of a value stands behind the columns of the sensors before its
/// own, at the place of the value in its sensor.
pub proof fn lemma_column_place(config: RocketConfigView, sensor: int, place: int)
    requires
        0 <= sensor < config.sensors.len(),
        0 <= place < config.sensors[sensor].values.len(),
    ensures
        column_offset(config, sensor as nat) + place < column_names(config).len(),
        column_names(config)[column_offset(config, sensor as nat) + place] == sensor_column(
            config.sensors[sensor],
            place,
        ),
{
    lemma_columns_prefix(config, (sensor + 1) as nat, config.sensors.len());
    lemma_column_count(config, sensor as nat);
    lemma_column_count(config, (sensor + 1) as nat);
    let upto = columns_of_first(config, (sensor + 1) as nat);
    let index = column_offset(config, sensor as nat) + place;
    assert(upto == columns_of_first(config, sensor as nat) + sensor_columns(config.sensors[sensor]));
    assert(upto[index] == sensor_columns(config.sensors[sensor])[place]);
    assert(column_names(config).take(upto.len() as int)[index] == column_names(config)[index]);
}

/// The columns of the first sensors stand first among the columns of more
/// sensors.
pub proof fn lemma_columns_prefix(config: RocketConfigView, fewer: nat, more: nat)
    requires
        fewer <= more <= config.sensors.len(),
    ensures
        columns_of_first(config, fewer).len() <= columns_of_first(config, more).len(),
        columns_of_first(config, more).take(columns_of_first(config, fewer).len() as int)
            == columns_of_first(config, fewer),
    decreases more,
{
    if fewer < more {
        lemma_columns_prefix(config, fewer, (more - 1) as nat);
        assert(columns_of_first(config, more).take(columns_of_first(config, fewer).len() as int)
            =~= columns_of_first(config, fewer));
    } else {
        assert(columns_of_first(config, more).take(columns_of_first(config, fewer).len() as int)
            =~= columns_of_first(config, fewer));
    }
}

/// The cells of the row under construction: names and values in the order in
/// which they were written. A later entry replaces an earlier one of the same
/// name.
struct RowBuffer {
    names: Vec<String>,
    values: Vec<TypedValue>,
}

/// The cells that the first `count` entries give.
spec fn cells_of(names: Seq<String>, values: Seq<TypedValue>, count: nat) -> Cells
    decreases count,
{
    if count == 0 {
        Map::empty()
    } else {
        cells_of(names, values, (count - 1) as nat).insert(names[count - 1]@, values[count - 1])
    }
}

/// Entries beyond `count` do not matter to the cells of the first `count`.
proof fn lemma_cells_of_prefix(
    names: Seq<String>,
    values: Seq<TypedValue>,
    longer_names: Seq<String>,
    longer_values: Seq<TypedValue>,
    count: nat,
)
    requires
        count <= names.len() <= longer_names.len(),
        count <= values.len() <= longer_values.len(),
        forall|i: int| 0 <= i < count ==> names[i] == longer_names[i],
        forall|i: int| 0 <= i < count ==> values[i] == longer_values[i],
    ensures
        cells_of(names, values, count) == cells_of(longer_names, longer_values, count),
    decreases count,
{
    if count > 0 {
        lemma_cells_of_prefix(names, values, longer_names, longer_values, (count - 1) as nat);
    }
}

impl RowBuffer {
    spec fn wf(&self) -> bool {
        self.names@.len() == self.values@.len()
    }

    spec fn cells(&self) -> Cells {
        cells_of(self.names@, self.values@, self.names@.len())
    }

    fn new() -> (buffer: Self)
        ensures
            buffer.wf(),
            buffer.cells() == Map::<Seq<char>, TypedValue>::empty(),
    {
        Self { names: Vec::new(), values: Vec::new() }
    }

    fn is_empty(&self) -> (empty: bool)
        requires
            self.wf(),
        ensures
            empty == (self.cells().dom() =~= Set::empty()),
    {
        proof {
            if self.names@.len() > 0 {
                assert(self.cells().dom().contains(self.names@[self.names@.len() - 1]@));
            }
        }
        self.names.len() == 0
    }

    fn get(&self, name: &String) -> (found: Option<TypedValue>)
        requires
            self.wf(),
        ensures
            found == if self.cells().contains_key(name@) {
                Some(self.cells()[name@])
            } else {
                None
            },
    {
        let mut left: usize = self.names.len();
        while left > 0
            invariant
                self.wf(),
                left <= self.names@.len(),
                self.cells().contains_key(name@) == cells_of(
                    self.names@,
                    self.values@,
                    left as nat,
                ).contains_key(name@),
                self.cells().contains_key(name@) ==> self.cells()[name@] == cells_of(
                    self.names@,
                    self.values@,
                    left as nat,
                )[name@],
            decreases left,
        {
            left -= 1;
            if self.names[left] == *name {
                return Some(self.values[left]);
            }
        }
        None
    }

    fn contains_key(&self, name: &String) -> (found: bool)
        requires
            self.wf(),
        ensures
            found == self.cells().contains_key(name@),
    {
        self.get(name).is_some()
    }

    fn insert(&mut self, name: String, value: TypedValue)
        requires
            old(self).wf(),
        ensures
            final(self).wf(),
            final(self).cells() == old(self).cells().insert(name@, value),
    {
        self.names.push(name);
        self.values.push(value);
        proof {
            lemma_cells_of_prefix(
                old(self).names@,
                old(self).values@,
                self.names@,
                self.values@,
                old(self).names@.len(),
            );
        }
    }
}

/// Generator of table rows from the packets of a source.
///
/// The resulting rows will always have the values in the same order and the
/// order of column names can be retrieved from the
/// [`TableGenerator::column_names`].
///
/// A pull that ends in an error uses up the item that caused it, and drops
/// what was gathered for the row before it. The next pull goes on with the
/// item after it, so no item is ever looked at twice; whether to go on at all
/// is up to the caller.
pub struct TableGenerator<I: SourceIterator> {
    iter: I,
    config: RocketConfig,
    /// The packet that was read ahead and belongs to the next row.
    packet_buf: Option<Packet>,
    columns: Vec<String>,
}

impl<I: SourceIterator> TableGenerator<I> {
    /// The column names held are those of the configuration. This holds of
    /// every generator that [`TableGenerator::new`] made.
    pub closed spec fn wf(&self) -> bool {
        texts(self.columns@) == column_names(self.config@)
    }

    /// The configuration by which the rows are laid out.
    pub closed spec fn config(&self) -> RocketConfigView {
        self.config@
    }

    /// The items that are still to come: the packet that was read ahead, if
    /// there is one, and then what the source holds.
    pub closed spec fn upcoming(&self) -> Seq<ItemView> {
        match self.packet_buf {
            Some(packet) => seq![Ok(packet@)] + self.iter.pending(),
            None => self.iter.pending(),
        }
    }

    /// Create a new table generator given a packet source and a rocket
    /// configuration.
    ///
    /// # Params
    ///
    /// * `iter` - Source that yields packets.
    /// * `config` - Rocket configuration, must be the same as the one used to
    ///              generate the packets.
    ///
    /// # Returns
    ///
    /// A new table generator.
    pub fn new(iter: I, config: RocketConfig) -> (table: Self)
        ensures
            table.wf(),
            table.config() == config@,
            table.upcoming() == iter.pending(),
    {
        let columns = Self::columns(&config);
        Self { iter, config, columns, packet_buf: None }
    }

    /// Get a column name for a given sensor and value configuration.
    ///
    /// # Params
    ///
    /// * `sensor` - Sensor configuration.
    /// * `value` - Value configuration.
    ///
    /// # Returns
    ///
    /// A string containing the column name.
    pub fn column_name(sensor: &SensorConfig, value: &ValueConfig) -> (name: String)
        ensures
            name@ == column_title(sensor.name@, value.name@),
    {
        proof {
            reveal_strlit("_");
        }
        let mut name = sensor.name.clone();
        name.append("_");
        name.append(value.name.as_str());
        assert(name@ =~= column_title(sensor.name@, value.name@));
        name
    }

    /// Get a list of column names for a given rocket configuration.
    ///
    /// # Params
    ///
    /// * `config` - Rocket configuration.
    ///
    /// # Returns
    ///
    /// A vector containing the column names.
    pub fn columns(config: &RocketConfig) -> (names: Vec<String>)
        ensures
            texts(names@) == column_names(config@),
    {
        let mut result: Vec<String> = Vec::new();
        let mut s: usize = 0;
        while s < config.sensors.len()
            invariant
                s <= config.sensors.len(),
                texts(result@) == columns_of_first(config@, s as nat),
            decreases config.sensors.len() - s,
        {
            let sensor = &config.sensors[s];
            let ghost before = texts(result@);
            let mut k: usize = 0;
            while k < sensor.values.len()
                invariant
                    k <= sensor.values.len(),
                    texts(result@) == before + sensor_columns(sensor@).take(k as int),
                decreases sensor.values.len() - k,
            {
                let name = Self::column_name(sensor, &sensor.values[k]);
                proof {
                    lemma_texts_push(result@, name);
                    assert(sensor@.values[k as int].name == sensor.values@[k as int].name@);
                    assert((before + sensor_columns(sensor@).take(k as int)).push(name@) =~= before
                        + sensor_columns(sensor@).take(k + 1));
                }
                result.push(name);
                k += 1;
            }
            assert(sensor_columns(sensor@).take(k as int) =~= sensor_columns(sensor@));
            assert(config@.sensors[s as int] == sensor@);
            s += 1;
        }
        result
    }

    /// An instance method of the [`TableGenerator::columns`] method to get the
    /// column names that are generated upon construction.
    pub fn column_names(&self) -> (names: Vec<String>)
        requires
            self.wf(),
        ensures
            texts(names@) == column_names(self.config()),
    {
        let mut names: Vec<String> = Vec::new();
        let mut j: usize = 0;
        while j < self.columns.len()
            invariant
                j <= self.columns.len(),
                texts(names@) == texts(self.columns@).take(j as int),
            decreases self.columns.len() - j,
        {
            let name = self.columns[j].clone();
            proof {
                lemma_texts_push(names@, name);
                assert(texts(self.columns@).take(j as int).push(name@) =~= texts(
                    self.columns@,
                ).take(j + 1));
            }
            names.push(name);
            j += 1;
        }
        assert(texts(self.columns@).take(j as int) =~= texts(self.columns@));
        names
    }

    /// Get the next packet from the internal buffer or the source if the
    /// buffer is empty.
    ///
    /// This method must be used instead of calling `next` on the source
    /// directly. This is because the generator occasionally needs to
    /// buffer packets to ensure that the resulting table is consistent. This
    /// method will use any buffered packets before getting the next packet
    /// from the source.
    ///
    /// # Returns
    ///
    /// The next packet from the source or `None` if the source is empty.
    fn next_packet(&mut self) -> (item: Option<Item>)
        requires
            old(self).wf(),
        ensures
            final(self).wf(),
            final(self).config() == old(self).config(),
            final(self).packet_buf is None,
            match item {
                None => old(self).upcoming().len() == 0 && final(self).upcoming().len() == 0,
                Some(found) => {
                    &&& old(self).upcoming().len() > 0
                    &&& item_view(found) == old(self).upcoming()[0]
                    &&& final(self).upcoming() == old(self).upcoming().drop_first()
                },
            },
    {
        match self.packet_buf.take() {
            Some(packet) => {
                assert(self.upcoming() =~= old(self).upcoming().drop_first());
                Some(Ok(packet))
            },
            None => self.iter.next(),
        }
    }

    /// Whether one of the sensor's columns has a value in the row already.
    fn row_has_sensor(current_row: &RowBuffer, sensor: &SensorConfig) -> (found: bool)
        requires
            current_row.wf(),
        ensures
            found == clashes(current_row.cells(), sensor@),
    {
        let mut k: usize = 0;
        while k < sensor.values.len()
            invariant
                current_row.wf(),
                k <= sensor.values.len(),
                forall|place: int|
                    0 <= place < k ==> !current_row.cells().contains_key(
                        #[trigger] sensor_column(sensor@, place),
                    ),
            decreases sensor.values.len() - k,
        {
            let name = Self::column_name(sensor, &sensor.values[k]);
            assert(name@ == sensor_column(sensor@, k as int));
            if current_row.contains_key(&name) {
                return true;
            }
            k += 1;
        }
        false
    }

    /// Writes the values of a packet of the sensor to their columns.
    fn place_packet(current_row: &mut RowBuffer, sensor: &SensorConfig, packet: &Packet)
        requires
            old(current_row).wf(),
            packet.values@.len() == sensor.values@.len(),
        ensures
            final(current_row).wf(),
            final(current_row).cells() == placed(
                old(current_row).cells(),
                sensor@,
                packet@.values,
                sensor@.values.len(),
            ),
    {
        let mut k: usize = 0;
        while k < sensor.values.len()
            invariant
                current_row.wf(),
                k <= sensor.values.len(),
                packet.values@.len() == sensor.values@.len(),
                current_row.cells() == placed(
                    old(current_row).cells(),
                    sensor@,
                    packet@.values,
                    k as nat,
                ),
            decreases sensor.values.len() - k,
        {
            let spec = &sensor.values[k];
            let typed_value = TypedValue::new(packet.values[k], &spec.data_type);
            let name = Self::column_name(sensor, spec);
            assert(name@ == sensor_column(sensor@, k as int));
            assert(sensor@.values[k as int].data_type == spec.data_type);
            current_row.insert(name, typed_value);
            k += 1;
        }
    }

    /// The row that the gathered cells give over the columns of the table.
    fn finish_row(&self, current_row: &RowBuffer) -> (slots: Row)
        requires
            self.wf(),
            current_row.wf(),
        ensures
            slots@ == projected(current_row.cells(), column_names(self.config())),
    {
        let mut result: Row = Vec::new();
        let mut j: usize = 0;
        while j < self.columns.len()
            invariant
                self.wf(),
                current_row.wf(),
                j <= self.columns.len(),
                result@ == projected(current_row.cells(), texts(self.columns@)).take(j as int),
            decreases self.columns.len() - j,
        {
            let slot = current_row.get(&self.columns[j]);
            result.push(slot);
            assert(result@ =~= projected(current_row.cells(), texts(self.columns@)).take(j + 1));
            j += 1;
        }
        assert(result@ =~= projected(current_row.cells(), texts(self.columns@)));
        result
    }

    /// Produce the next row of the table.
    ///
    /// Packets are drawn, the one read ahead first, and written to the
    /// columns of their sensors until a packet comes whose sensor has a value
    /// in the row already. That packet is kept for the next row. What was
    /// gathered is laid out over all columns; a column that no packet filled
    /// stays empty. When the source has run dry and nothing was gathered, the
    /// table has ended.
    ///
    /// An error of the source, a packet of an unknown sensor and a packet
    /// with the wrong number of values end the pull with that error.
    pub fn next(&mut self) -> (row: Option<Result<Row, PacketError>>)
        requires
            old(self).wf(),
        ensures
            final(self).wf(),
            final(self).config() == old(self).config(),
            row_view(row) == next_row(old(self).config(), old(self).upcoming()).row,
            final(self).upcoming() == next_row(old(self).config(), old(self).upcoming()).rest,
    {
        let ghost config = self.config@;
        let ghost queue = self.upcoming();
        let mut current_row = RowBuffer::new();
        loop
            invariant
                self.wf(),
                self.config@ == config,
                config == old(self).config(),
                queue == old(self).upcoming(),
                current_row.wf(),
                gather(config, Map::empty(), queue) == gather(
                    config,
                    current_row.cells(),
                    self.upcoming(),
                ),
            ensures
                self.wf(),
                self.config@ == config,
                current_row.wf(),
                gather(config, Map::empty(), queue) == (Gathered {
                    outcome: Ok(current_row.cells()),
                    rest: self.upcoming(),
                }),
            decreases self.upcoming().len(),
        {
            let ghost before = self.upcoming();
            let Some(item) = self.next_packet() else {
                assert(before =~= self.upcoming());
                break ;
            };
            // Propagate any errors from the source.
            let packet = match item {
                Ok(packet) => packet,
                Err(err) => {
                    return Some(Err(err));
                },
            };
            // Get the sensor configuration for this packet.
            let Some(sensor) = self.config.get_sensor_by_id(packet.id) else {
                return Some(Err(PacketError::InvalidId(packet.id)));
            };
            assert(sensor@ == config.sensors[config.position_of(packet.id)->0]);
            // If the number of values in the packet does not match the number
            // of values in the sensor configuration, we return an error.
            //
            // This should only really happen if the rocket configuration does
            // not match the one used for the packets.
            if packet.values.len() != sensor.values.len() {
                return Some(
                    Err(
                        PacketError::InvalidValueCount {
                            expected: sensor.values.len(),
                            actual: packet.values.len(),
                        },
                    ),
                );
            }
            // If this sensor has already been added to the current row, we
            // keep the packet for the next row and then end the row.

            if Self::row_has_sensor(&current_row, sensor) {
                self.packet_buf = Some(packet);
                assert(self.upcoming() =~= before);
                break ;
            }
            // Write all the values to their columns.

            Self::place_packet(&mut current_row, sensor, &packet);
        }
        // Don't return empty rows.
        if current_row.is_empty() {
            return None;
        }
        Some(Ok(self.finish_row(&current_row)))
    }
}

} // verus!
