//! The table as lines of comma-separated text.

use crate::configuration::{RocketConfig, RocketConfigView};
use crate::data::{lemma_value_text_has_no_comma, ItemView, PacketError, TypedValue};
use crate::result_table::{
    column_names, lemma_pull_progress, next_row, Row, RowView, SourceIterator, TableGenerator,
};
use crate::text::{joined, lemma_occurrences_concat, occurrences, push_joined};
use vstd::prelude::*;

verus! {

/// The text of a slot of a row: that of its value, and nothing where the
/// slot is empty.
pub open spec fn slot_text(slot: Option<TypedValue>) -> Seq<char> {
    match slot {
        Some(value) => value.text(),
        None => Seq::empty(),
    }
}

/// The line of a row: the texts of its slots with commas between them.
pub open spec fn row_line(slots: Seq<Option<TypedValue>>) -> Seq<char> {
    joined(slots.map_values(|slot: Option<TypedValue>| slot_text(slot)), seq![','])
}

/// The first line of the table: the names of the columns with commas between
/// them.
pub open spec fn header_line(config: RocketConfigView) -> Seq<char> {
    joined(column_names(config), seq![','])
}

/// The line of a row holds one comma less than the row has slots, empty or
/// not.
pub proof fn lemma_row_separators(slots: Seq<Option<TypedValue>>)
    requires
        slots.len() >= 1,
    ensures
        occurrences(row_line(slots), ',') == slots.len() - 1,
    decreases slots.len(),
{
    let parts = slots.map_values(|slot: Option<TypedValue>| slot_text(slot));
    let last = parts.last();
    assert(last == slot_text(slots.last()));
    assert(occurrences(last, ',') == 0) by {
        match slots.last() {
            Some(value) => lemma_value_text_has_no_comma(value),
            None => {},
        }
    }
    if slots.len() > 1 {
        let front = slots.drop_last();
        lemma_row_separators(front);
        assert(parts.drop_last() =~= front.map_values(|slot: Option<TypedValue>| slot_text(slot)));
        let head = joined(parts.drop_last(), seq![',']);
        assert(row_line(slots) == head + seq![','] + last);
        lemma_occurrences_concat(head + seq![','], last, ',');
        lemma_occurrences_concat(head, seq![','], ',');
        assert(occurrences(seq![','], ',') == 1) by {
            let comma = seq![','];
            assert(comma.len() == 1);
            assert(comma.last() == ',');
            assert(comma.drop_last().len() == 0);
            assert(occurrences(comma.drop_last(), ',') == 0);
        }
    }
}

/// What one pull at the lines gives, as plain values.
pub type LineView = Option<Result<Seq<char>, PacketError>>;

/// The plain values of what one pull at the lines gives.
pub open spec fn line_view(line: Option<Result<String, PacketError>>) -> LineView {
    match line {
        None => None,
        Some(Err(error)) => Some(Err(error)),
        Some(Ok(text)) => Some(Ok(text@)),
    }
}

/// The line for what one pull at the table gave. A row without any slot
/// ends the lines.
pub open spec fn line_of(row: RowView) -> LineView {
    match row {
        None => None,
        Some(Err(error)) => Some(Err(error)),
        Some(Ok(slots)) => if slots.len() == 0 {
            None
        } else {
            Some(Ok(row_line(slots)))
        },
    }
}

/// The lines of the rows of a table, each with a line feed behind it, up to
/// the end of the table or to the first error; and that error, if the table
/// ended by one.
pub struct Written {
    pub text: Seq<char>,
    pub failure: Option<PacketError>,
}

/// The lines of the rows that the items of `queue` give.
pub open spec fn rows_text(config: RocketConfigView, queue: Seq<ItemView>) -> Written
    decreases queue.len(),
{
    let pulled = next_row(config, queue);
    match line_of(pulled.row) {
        None => Written { text: Seq::empty(), failure: None },
        Some(Err(error)) => Written { text: Seq::empty(), failure: Some(error) },
        Some(Ok(line)) => if pulled.rest.len() < queue.len() {
            let after = rows_text(config, pulled.rest);
            Written { text: line + seq!['\n'] + after.text, failure: after.failure }
        } else {
            Written { text: Seq::empty(), failure: None }
        },
    }
}

/// The table as text: the header line, unless it was given out before, and
/// the lines of the rows.
pub open spec fn table_text(config: RocketConfigView, queue: Seq<ItemView>, header: bool) -> Written {
    let rows = rows_text(config, queue);
    if header {
        Written { text: header_line(config) + seq!['\n'] + rows.text, failure: rows.failure }
    } else {
        rows
    }
}

/// Appends to `out` the line of the row.
pub fn push_row_line(out: &mut String, row: &Row)
    ensures
        final(out)@ == old(out)@ + row_line(row@),
{
    let ghost parts = row@.map_values(|slot: Option<TypedValue>| slot_text(slot));
    let mut i: usize = 0;
    while i < row.len()
        invariant
            i <= row.len(),
            parts == row@.map_values(|slot: Option<TypedValue>| slot_text(slot)),
            out@ == old(out)@ + joined(parts.take(i as int), seq![',']),
        decreases row.len() - i,
    {
        if i > 0 {
            proof {
                reveal_strlit(",");
            }
            out.append(",");
        }
        match &row[i] {
            Some(value) => {
                let text = value.to_string();
                out.append(text.as_str());
            },
            None => {},
        }
        proof {
            let longer = parts.take(i + 1);
            assert(longer.drop_last() =~= parts.take(i as int));
            assert(longer.last() == slot_text(row@[i as int]));
            assert(out@ =~= old(out)@ + joined(longer, seq![',']));
        }
        i += 1;
    }
    assert(parts.take(i as int) =~= parts);
}

/// Generator of the lines of a CSV file from the packets of a source.
///
/// This uses the TableGenerator to generate the rows of a table and then
/// converts them to CSV rows. The first line is the table header. Each
/// line is a string containing the values separated by commas, or the
/// header if it's the first line.
pub struct CsvGenerator<I: SourceIterator> {
    is_first: bool,
    iter: TableGenerator<I>,
}

impl<I: SourceIterator> CsvGenerator<I> {
    /// This holds of every generator that [`CsvGenerator::new`] made.
    pub closed spec fn wf(&self) -> bool {
        self.iter.wf()
    }

    /// Whether the header is still to come.
    pub closed spec fn at_header(&self) -> bool {
        self.is_first
    }

    /// The configuration by which the rows are laid out.
    pub closed spec fn config(&self) -> RocketConfigView {
        self.iter.config()
    }

    /// The items that are still to come.
    pub closed spec fn upcoming(&self) -> Seq<ItemView> {
        self.iter.upcoming()
    }

    /// Create a new CSV generator given a packet source and a rocket
    /// configuration.
    ///
    /// This constructs the table generator so it can be used during the rest
    /// of the lifetime of the CSV generator.
    pub fn new(iter: I, config: RocketConfig) -> (csv: Self)
        ensures
            csv.wf(),
            csv.at_header(),
            csv.config() == config@,
            csv.upcoming() == iter.pending(),
    {
        Self { iter: TableGenerator::new(iter, config), is_first: true }
    }

    /// The header: the names of the columns with commas between them.
    fn header(&self) -> (line: String)
        requires
            self.wf(),
        ensures
            line@ == header_line(self.config()),
    {
        let names = self.iter.column_names();
        let mut line = String::new();
        proof {
            reveal_strlit(",");
            assert(","@ =~= seq![',']);
        }
        push_joined(&mut line, &names, ",");
        assert(line@ =~= header_line(self.config()));
        line
    }

    /// Produce the next line.
    ///
    /// The first line is the header. Each line after it is the line of the
    /// next row of the table, or the error by which the pull at the table
    /// ended; `None` marks the end of the table.
    pub fn next(&mut self) -> (line: Option<Result<String, PacketError>>)
        requires
            old(self).wf(),
        ensures
            final(self).wf(),
            !final(self).at_header(),
            final(self).config() == old(self).config(),
            old(self).at_header() ==> {
                &&& line_view(line) == Some(
                    Ok::<Seq<char>, PacketError>(header_line(old(self).config())),
                )
                &&& final(self).upcoming() == old(self).upcoming()
            },
            !old(self).at_header() ==> {
                &&& line_view(line) == line_of(
                    next_row(old(self).config(), old(self).upcoming()).row,
                )
                &&& final(self).upcoming() == next_row(
                    old(self).config(),
                    old(self).upcoming(),
                ).rest
            },
    {
        // Create the header row if this is the first row.
        if self.is_first {
            self.is_first = false;
            return Some(Ok(self.header()));
        }
        // Get the next row from the table generator.

        let row = match self.iter.next() {
            None => {
                return None;
            },
            Some(Ok(value)) => value,
            Some(Err(e)) => {
                return Some(Err(e));
            },
        };
        // Don't return anything if the row is empty.
        if row.len() == 0 {
            return None;
        }
        let mut result = String::new();
        push_row_line(&mut result, &row);
        assert(result@ =~= row_line(row@));
        Some(Ok(result))
    }

    /// Consume the generator and write the CSV to the given text, each line
    /// with a line feed behind it.
    ///
    /// # Params
    ///
    /// * `out` - Text to append the CSV to.
    ///
    /// # Errors
    ///
    /// Writing stops at the first line that is an error, and that error is
    /// returned. The lines before it have been written.
    pub fn write_csv(self, out: &mut String) -> (done: Result<(), PacketError>)
        requires
            self.wf(),
        ensures
            final(out)@ == old(out)@ + table_text(
                self.config(),
                self.upcoming(),
                self.at_header(),
            ).text,
            done == match table_text(self.config(), self.upcoming(), self.at_header()).failure {
                Some(error) => Err::<(), PacketError>(error),
                None => Ok::<(), PacketError>(()),
            },
    {
        proof {
            reveal_strlit("\n");
        }
        let mut lines = self;
        let ghost config = self.config();
        if lines.is_first {
            lines.is_first = false;
            out.append(lines.header().as_str());
            out.append("\n");
        }
        loop
            invariant
                lines.wf(),
                !lines.at_header(),
                lines.config() == config,
                config == self.config(),
                out@ + rows_text(config, lines.upcoming()).text == old(out)@ + table_text(
                    config,
                    self.upcoming(),
                    self.at_header(),
                ).text,
                rows_text(config, lines.upcoming()).failure == table_text(
                    config,
                    self.upcoming(),
                    self.at_header(),
                ).failure,
            decreases lines.upcoming().len(),
        {
            let ghost queue = lines.upcoming();
            let ghost before = out@;
            proof {
                lemma_pull_progress(config, queue);
            }
            match lines.next() {
                None => {
                    assert(out@ + Seq::<char>::empty() =~= out@);
                    return Ok(());
                },
                Some(Err(error)) => {
                    assert(out@ + Seq::<char>::empty() =~= out@);
                    return Err(error);
                },
                Some(Ok(line)) => {
                    out.append(line.as_str());
                    out.append("\n");
                    proof {
                        reveal_strlit("\n");
                        let after = rows_text(config, lines.upcoming());
                        assert(out@ + after.text =~= before + (line@ + seq!['\n'] + after.text));
                    }
                },
            }
        }
    }
}

} // verus!
