//! A report on the values of a log: how many samples each value has, and
//! the least and the greatest of them.

use crate::configuration::{RocketConfig, RocketConfigView, SensorConfig, SensorConfigView};
use crate::data::{PacketError, TypedValue};
use crate::report::latex::{heading_text, raw_text, LatexElement};
use crate::result_table::{
    all_rows, column_names, column_offset, lemma_column_count, lemma_pull_progress,
    SourceIterator, TableGenerator,
};
use crate::text::{decimal, joined, lemma_texts_push, push_decimal, push_joined, texts};
use vstd::prelude::*;

pub mod latex;

verus! {

/// Statistics on a value.
///
/// This is used during the construction of a report to calculate statistics on
/// the data.
#[derive(Clone, Copy, Debug, PartialEq, Eq, Structural)]
pub struct ValueStats {
    /// The minimum value recorded.
    pub min: TypedValue,
    /// The maximum value recorded.
    pub max: TypedValue,
    /// The number of samples recorded.
    pub count: u64,
}

impl ValueStats {
    /// The statistics of a single sample.
    pub open spec fn first(value: TypedValue) -> ValueStats {
        ValueStats { min: value, max: value, count: 1 }
    }

    /// The statistics with one more sample. A sample of another kind than
    /// those before it is counted and not compared. The count stops at the
    /// largest number that it can hold.
    pub open spec fn with(self, value: TypedValue) -> ValueStats {
        ValueStats {
            min: if self.min.value_kind == value.value_kind {
                self.min.min(value)
            } else {
                self.min
            },
            max: if self.max.value_kind == value.value_kind {
                self.max.max(value)
            } else {
                self.max
            },
            count: if self.count < u64::MAX {
                (self.count + 1) as u64
            } else {
                self.count
            },
        }
    }

    /// The statistics with one more sample.
    pub fn record(&self, value: &TypedValue) -> (stats: ValueStats)
        ensures
            stats == self.with(*value),
    {
        let min = match self.min.partial_min(value) {
            Some(least) => least,
            None => self.min,
        };
        let max = match self.max.partial_max(value) {
            Some(most) => most,
            None => self.max,
        };
        let count: u64 = if self.count < u64::MAX {
            self.count + 1
        } else {
            self.count
        };
        ValueStats { min, max, count }
    }
}

/// The statistics of a column after one more row.
pub open spec fn observed(stats: Option<ValueStats>, slot: Option<TypedValue>) -> Option<
    ValueStats,
> {
    match slot {
        None => stats,
        Some(value) => Some(
            match stats {
                None => ValueStats::first(value),
                Some(before) => before.with(value),
            },
        ),
    }
}

/// The statistics of a column over the rows of a table: `None` where no row
/// has a value in the column.
pub open spec fn column_stats(rows: Seq<Seq<Option<TypedValue>>>, column: int) -> Option<
    ValueStats,
>
    decreases rows.len(),
{
    if rows.len() == 0 {
        None
    } else {
        observed(column_stats(rows.drop_last(), column), rows.last()[column])
    }
}

/// Reported data about a sensor.
pub struct SensorReport {
    /// The statistics of each value of the sensor, in declared order, and
    /// `None` for a value without samples.
    value_stats: Vec<Option<ValueStats>>,
}

/// The statistics of every value of a rocket, ready to be written as LaTeX.
pub struct Report {
    config: RocketConfig,
    /// The report of each sensor, in declared order.
    sensor_reports: Vec<SensorReport>,
}

/// The text before the document.
pub open spec fn header_content() -> Seq<char> {
    "\\documentclass{article}\n\n"@
}

/// The names of the sensors, in declared order.
pub open spec fn sensor_names(config: RocketConfigView) -> Seq<Seq<char>> {
    Seq::new(config.sensors.len(), |s: int| config.sensors[s].name)
}

/// The names of the values of a sensor, in declared order.
pub open spec fn value_names(sensor: SensorConfigView) -> Seq<Seq<char>> {
    Seq::new(sensor.values.len(), |k: int| sensor.values[k].name)
}

/// The sentence that introduces the rocket and lists its sensors.
pub open spec fn introduction(config: RocketConfigView) -> Seq<char> {
    "The "@ + config.shown_name() + " rocket has "@ + decimal(config.sensors.len()) + " sensors: "@
        + joined(sensor_names(config), ", "@) + "."@
}

/// The sentence that introduces a sensor and lists its values.
pub open spec fn sensor_sentence(sensor: SensorConfigView) -> Seq<char> {
    "The "@ + sensor.name + " sensor has "@ + decimal(sensor.values.len()) + " values: "@ + joined(
        value_names(sensor),
        ", "@,
    ) + ". "@
}

/// The three sentences on the samples of a value.
pub open spec fn stats_text(name: Seq<char>, stats: ValueStats) -> Seq<char> {
    raw_text("The "@ + name + " value has "@ + decimal(stats.count as nat) + " samples. "@)
        + raw_text("The minimum value is "@ + stats.min.text() + ". "@) + raw_text(
        "The maximum value is "@ + stats.max.text() + ". "@,
    )
}

impl Report {
    /// There is a report for each sensor, with a place for each of its
    /// values. This holds of every report that [`Report::new`] made.
    pub closed spec fn wf(&self) -> bool {
        &&& self.sensor_reports@.len() == self.config@.sensors.len()
        &&& forall|s: int|
            0 <= s < self.sensor_reports@.len() ==> (#[trigger] self.sensor_reports@[s]).value_stats@.len()
                == self.config@.sensors[s].values.len()
    }

    /// The configuration that the report is about.
    pub closed spec fn config(&self) -> RocketConfigView {
        self.config@
    }

    /// The statistics of the value at `place` of the sensor at `sensor`:
    /// `None` where the value has no samples.
    pub closed spec fn stats(&self, sensor: int, place: int) -> Option<ValueStats> {
        self.sensor_reports@[sensor].value_stats@[place]
    }

    /// What the report says of the first `count` values of a sensor.
    pub open spec fn values_text(&self, sensor: int, count: nat) -> Seq<char>
        decreases count,
    {
        if count == 0 {
            Seq::empty()
        } else {
            self.values_text(sensor, (count - 1) as nat) + match self.stats(sensor, count - 1) {
                Some(stats) => stats_text(
                    self.config().sensors[sensor].values[count - 1].name,
                    stats,
                ),
                None => Seq::empty(),
            }
        }
    }

    /// What the report says of a sensor: a heading, the sentence that
    /// introduces it, and the sentences on each of its values that has
    /// samples.
    pub open spec fn sensor_text(&self, sensor: int) -> Seq<char> {
        heading_text("subsection"@, self.config().sensors[sensor].name) + raw_text(
            sensor_sentence(self.config().sensors[sensor]),
        ) + self.values_text(sensor, self.config().sensors[sensor].values.len())
    }

    /// What the report says of the first `count` sensors.
    pub open spec fn sensors_text(&self, count: nat) -> Seq<char>
        decreases count,
    {
        if count == 0 {
            Seq::empty()
        } else {
            self.sensors_text((count - 1) as nat) + self.sensor_text(count - 1)
        }
    }

    /// What stands inside the document.
    pub open spec fn body_text(&self) -> Seq<char> {
        heading_text("section"@, "Sensor Data"@) + raw_text(introduction(self.config()))
            + self.sensors_text(self.config().sensors.len())
    }

    /// The report as LaTeX.
    pub open spec fn text(&self) -> Seq<char> {
        header_content() + "\\begin{"@ + "document"@ + "} "@ + self.body_text() + "\\end{"@
            + "document"@ + "} "@
    }

    /// The sentence that introduces the rocket and lists its sensors.
    fn sensor_introduction(&self) -> (text: String)
        ensures
            text@ == introduction(self.config()),
    {
        let rocket_name = self.config.display_name();
        let mut names: Vec<String> = Vec::new();
        let mut s: usize = 0;
        while s < self.config.sensors.len()
            invariant
                s <= self.config.sensors.len(),
                texts(names@) == sensor_names(self.config@).take(s as int),
            decreases self.config.sensors.len() - s,
        {
            let name = self.config.sensors[s].name.clone();
            proof {
                lemma_texts_push(names@, name);
                assert(sensor_names(self.config@).take(s as int).push(name@) =~= sensor_names(
                    self.config@,
                ).take(s + 1));
            }
            names.push(name);
            s += 1;
        }
        assert(sensor_names(self.config@).take(s as int) =~= sensor_names(self.config@));
        let mut text = String::from_str("The ");
        text.append(rocket_name.as_str());
        text.append(" rocket has ");
        push_decimal(&mut text, self.config.sensors.len() as u128);
        text.append(" sensors: ");
        push_joined(&mut text, &names, ", ");
        text.append(".");
        assert(text@ =~= introduction(self.config()));
        text
    }

    /// The sentence that introduces a sensor and lists its values.
    fn sensor_summary(sensor: &SensorConfig) -> (text: String)
        ensures
            text@ == sensor_sentence(sensor@),
    {
        let mut names: Vec<String> = Vec::new();
        let mut k: usize = 0;
        while k < sensor.values.len()
            invariant
                k <= sensor.values.len(),
                texts(names@) == value_names(sensor@).take(k as int),
            decreases sensor.values.len() - k,
        {
            let name = sensor.values[k].name.clone();
            proof {
                lemma_texts_push(names@, name);
                assert(value_names(sensor@).take(k as int).push(name@) =~= value_names(
                    sensor@,
                ).take(k + 1));
            }
            names.push(name);
            k += 1;
        }
        assert(value_names(sensor@).take(k as int) =~= value_names(sensor@));
        let mut text = String::from_str("The ");
        text.append(sensor.name.as_str());
        text.append(" sensor has ");
        push_decimal(&mut text, sensor.values.len() as u128);
        text.append(" values: ");
        push_joined(&mut text, &names, ", ");
        text.append(". ");
        assert(text@ =~= sensor_sentence(sensor@));
        text
    }

    /// Adds the three sentences on the samples of a value to the elements.
    fn push_stats(elements: &mut Vec<LatexElement>, name: &String, stats: &ValueStats)
        ensures
            LatexElement::rendered_all(*final(elements)) == LatexElement::rendered_all(
                *old(elements),
            ) + stats_text(name@, *stats),
    {
        let mut samples = String::from_str("The ");
        samples.append(name.as_str());
        samples.append(" value has ");
        push_decimal(&mut samples, stats.count as u128);
        samples.append(" samples. ");
        let mut least = String::from_str("The minimum value is ");
        least.append(stats.min.to_string().as_str());
        least.append(". ");
        let mut most = String::from_str("The maximum value is ");
        most.append(stats.max.to_string().as_str());
        most.append(". ");
        proof {
            assert(samples@ =~= "The "@ + name@ + " value has "@ + decimal(stats.count as nat)
                + " samples. "@);
            assert(least@ =~= "The minimum value is "@ + stats.min.text() + ". "@);
            assert(most@ =~= "The maximum value is "@ + stats.max.text() + ". "@);
        }
        LatexElement::push_to(elements, LatexElement::Raw(samples));
        LatexElement::push_to(elements, LatexElement::Raw(least));
        LatexElement::push_to(elements, LatexElement::Raw(most));
        assert(LatexElement::rendered_all(*elements) =~= LatexElement::rendered_all(*old(elements))
            + stats_text(name@, *stats));
    }

    /// Appends the report as LaTeX to `writer`.
    pub fn write(&self, writer: &mut String)
        requires
            self.wf(),
        ensures
            final(writer)@ == old(writer)@ + self.text(),
    {
        writer.append("\\documentclass{article}\n\n");
        let mut elements: Vec<LatexElement> = Vec::new();
        assert(LatexElement::rendered_all(elements) =~= Seq::<char>::empty());
        LatexElement::push_to(
            &mut elements,
            LatexElement::heading("section", String::from_str("Sensor Data")),
        );
        LatexElement::push_to(&mut elements, LatexElement::Raw(self.sensor_introduction()));
        let ghost opening = LatexElement::rendered_all(elements);
        assert(opening =~= heading_text("section"@, "Sensor Data"@) + raw_text(
            introduction(self.config()),
        ));
        let mut s: usize = 0;
        while s < self.config.sensors.len()
            invariant
                self.wf(),
                s <= self.config.sensors.len(),
                LatexElement::rendered_all(elements) == opening + self.sensors_text(s as nat),
            decreases self.config.sensors.len() - s,
        {
            let sensor = &self.config.sensors[s];
            let report = &self.sensor_reports[s];
            assert(sensor@ == self.config().sensors[s as int]);
            let ghost before = LatexElement::rendered_all(elements);
            LatexElement::push_to(
                &mut elements,
                LatexElement::heading("subsection", sensor.name.clone()),
            );
            LatexElement::push_to(&mut elements, LatexElement::Raw(Self::sensor_summary(sensor)));
            let ghost headed = LatexElement::rendered_all(elements);
            let mut k: usize = 0;
            while k < sensor.values.len()
                invariant
                    self.wf(),
                    s < self.config.sensors.len(),
                    sensor@ == self.config().sensors[s as int],
                    *report == self.sensor_reports@[s as int],
                    k <= sensor.values.len(),
                    LatexElement::rendered_all(elements) == headed + self.values_text(
                        s as int,
                        k as nat,
                    ),
                decreases sensor.values.len() - k,
            {
                assert(sensor@.values[k as int].name == sensor.values@[k as int].name@);
                match &report.value_stats[k] {
                    Some(stats) => {
                        Self::push_stats(&mut elements, &sensor.values[k].name, stats);
                    },
                    None => {},
                }
                assert(LatexElement::rendered_all(elements) =~= headed + self.values_text(
                    s as int,
                    (k + 1) as nat,
                ));
                k += 1;
            }
            assert(LatexElement::rendered_all(elements) =~= before + self.sensor_text(s as int));
            assert(before + self.sensor_text(s as int) =~= opening + self.sensors_text(
                (s + 1) as nat,
            ));
            s += 1;
        }
        let document = LatexElement::environment("document", elements);
        document.write(writer);
        assert(writer@ =~= old(writer)@ + self.text());
    }

    /// Folds the rows of the table into the statistics of each column.
    fn fold_rows<I: SourceIterator>(table: &mut TableGenerator<I>) -> (folded: Result<
        Vec<Option<ValueStats>>,
        PacketError,
    >)
        requires
            old(table).wf(),
        ensures
            final(table).wf(),
            final(table).config() == old(table).config(),
            match all_rows(old(table).config(), old(table).upcoming()).failure {
                Some(error) => folded matches Err(found) && found == error,
                None => {
                    &&& folded matches Ok(stats)
                    &&& stats@.len() == column_names(old(table).config()).len()
                    &&& forall|j: int|
                        0 <= j < stats@.len() ==> #[trigger] stats@[j] == column_stats(
                            all_rows(old(table).config(), old(table).upcoming()).rows,
                            j,
                        )
                },
            },
    {
        let names = table.column_names();
        let width: usize = names.len();
        let ghost config = table.config();
        let ghost start = table.upcoming();
        let mut stats: Vec<Option<ValueStats>> = Vec::new();
        let mut j: usize = 0;
        while j < width
            invariant
                j <= width,
                stats@.len() == j,
                forall|i: int| 0 <= i < j ==> (#[trigger] stats@[i]) is None,
            decreases width - j,
        {
            stats.push(None);
            j += 1;
        }
        let ghost done: Seq<Seq<Option<TypedValue>>> = Seq::empty();
        loop
            invariant
                table.wf(),
                table.config() == config,
                config == old(table).config(),
                start == old(table).upcoming(),
                width == column_names(config).len(),
                stats@.len() == width,
                all_rows(config, start).rows == done + all_rows(config, table.upcoming()).rows,
                all_rows(config, start).failure == all_rows(config, table.upcoming()).failure,
                forall|i: int| 0 <= i < width ==> #[trigger] stats@[i] == column_stats(done, i),
            decreases table.upcoming().len(),
        {
            let ghost queue = table.upcoming();
            proof {
                lemma_pull_progress(config, queue);
            }
            match table.next() {
                None => {
                    assert(done + Seq::<Seq<Option<TypedValue>>>::empty() =~= done);
                    return Ok(stats);
                },
                Some(Err(error)) => {
                    return Err(error);
                },
                Some(Ok(row)) => {
                    let ghost before = stats@;
                    let mut i: usize = 0;
                    while i < width
                        invariant
                            i <= width,
                            row@.len() == width,
                            stats@.len() == width,
                            before.len() == width,
                            forall|c: int|
                                0 <= c < i ==> #[trigger] stats@[c] == observed(
                                    before[c],
                                    row@[c],
                                ),
                            forall|c: int| i <= c < width ==> #[trigger] stats@[c] == before[c],
                        decreases width - i,
                    {
                        match row[i] {
                            Some(value) => {
                                let updated = match stats[i] {
                                    Some(known) => known.record(&value),
                                    None => ValueStats { min: value, max: value, count: 1 },
                                };
                                stats.set(i, Some(updated));
                            },
                            None => {},
                        }
                        i += 1;
                    }
                    proof {
                        let after = all_rows(config, table.upcoming());
                        let longer = done.push(row@);
                        assert(longer + after.rows =~= done + (seq![row@] + after.rows));
                        assert(longer.drop_last() =~= done);
                        done = longer;
                    }
                },
            }
        }
    }

    /// Reads all packets of the source and reports on the values of each
    /// sensor.
    ///
    /// The first error that the table gives ends the reading, and is
    /// returned in place of a report.
    pub fn new<I: SourceIterator>(config: RocketConfig, packets: I) -> (made: Result<
        Report,
        PacketError,
    >)
        ensures
            match all_rows(config@, packets.pending()).failure {
                Some(error) => made matches Err(found) && found == error,
                None => {
                    &&& made matches Ok(report)
                    &&& report.wf()
                    &&& report.config() == config@
                    &&& forall|s: int, k: int|
                        0 <= s < config@.sensors.len() && 0 <= k < config@.sensors[s].values.len()
                            ==> #[trigger] report.stats(s, k) == column_stats(
                            all_rows(config@, packets.pending()).rows,
                            column_offset(config@, s as nat) + k,
                        )
                },
            },
    {
        let mut table_generator = TableGenerator::new(packets, config.clone());
        let column_stats = match Self::fold_rows(&mut table_generator) {
            Ok(stats) => stats,
            Err(error) => {
                return Err(error);
            },
        };
        let ghost rows = all_rows(config@, packets.pending()).rows;
        let width: usize = column_stats.len();
        let mut sensor_reports: Vec<SensorReport> = Vec::new();
        let mut offset: usize = 0;
        let mut s: usize = 0;
        proof {
            lemma_column_count(config@, config@.sensors.len());
        }
        while s < config.sensors.len()
            invariant
                s <= config.sensors.len(),
                sensor_reports@.len() == s,
                offset == column_offset(config@, s as nat),
                width == column_stats@.len() == column_offset(config@, config@.sensors.len()),
                forall|j: int|
                    0 <= j < column_stats@.len() ==> #[trigger] column_stats@[j] == self::column_stats(
                        rows,
                        j,
                    ),
                forall|t: int|
                    0 <= t < s ==> (#[trigger] sensor_reports@[t]).value_stats@.len()
                        == config@.sensors[t].values.len(),
                forall|t: int, k: int|
                    0 <= t < s && 0 <= k < config@.sensors[t].values.len()
                        ==> #[trigger] sensor_reports@[t].value_stats@[k] == self::column_stats(
                        rows,
                        column_offset(config@, t as nat) + k,
                    ),
            decreases config.sensors.len() - s,
        {
            let sensor = &config.sensors[s];
            proof {
                assert(config@.sensors[s as int] == sensor@);
                assert(sensor@.values.len() == sensor.values@.len());
                assert(column_offset(config@, (s + 1) as nat) == offset + sensor.values@.len());
                lemma_offset_monotonic(config@, (s + 1) as nat, config@.sensors.len());
            }
            let mut value_stats: Vec<Option<ValueStats>> = Vec::new();
            let mut k: usize = 0;
            while k < sensor.values.len()
                invariant
                    k <= sensor.values.len(),
                    value_stats@.len() == k,
                    offset + sensor.values@.len() <= column_stats@.len() == width,
                    forall|i: int|
                        0 <= i < k ==> #[trigger] value_stats@[i] == column_stats@[offset + i],
                decreases sensor.values.len() - k,
            {
                value_stats.push(column_stats[offset + k]);
                k += 1;
            }
            sensor_reports.push(SensorReport { value_stats });
            offset = offset + sensor.values.len();
            s += 1;
        }
        Ok(Report { config, sensor_reports })
    }
}

/// Fewer sensors have no more columns.
pub proof fn lemma_offset_monotonic(config: RocketConfigView, fewer: nat, more: nat)
    requires
        fewer <= more <= config.sensors.len(),
    ensures
        column_offset(config, fewer) <= column_offset(config, more),
    decreases more,
{
    if fewer < more {
        lemma_offset_monotonic(config, fewer, (more - 1) as nat);
    }
}

} // verus!
