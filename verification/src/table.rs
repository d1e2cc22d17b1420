use vstd::prelude::*;

use crate::codec::first_of2;
use crate::text::push_char;
use crate::variable::{DataType, Variable};

verus! {

use vstd::string::StrSliceExecFns;

// A generic table of strings, as handed to the output renderers: a header
// and one list of cells per row. The CSV rendering is the one output
// format computed here; the pretty printers live with the callers.
/// A field is quoted when it holds a newline, carriage return or comma.
pub open spec fn needs_quote(s: Seq<char>) -> bool {
    first_of2(s, '\n', '\r') < s.len() || first_of2(s, ',', ',') < s.len()
}

/// The CSV rendering of one field.
pub open spec fn csv_field(s: Seq<char>) -> Seq<char> {
    if needs_quote(s) {
        seq!['"'] + s + seq!['"']
    } else {
        s
    }
}

/// The CSV rendering of one line: the fields joined with commas.
pub open spec fn csv_line(row: Seq<String>) -> Seq<char>
    decreases row.len(),
{
    if row.len() == 0 {
        Seq::empty()
    } else if row.len() == 1 {
        csv_field(row[0]@)
    } else {
        csv_line(row.drop_last()) + seq![','] + csv_field(row.last()@)
    }
}

/// The CSV rendering of the rows: the lines joined with newlines, without
/// a trailing newline.
pub open spec fn csv_body(rows: Seq<Vec<String>>) -> Seq<char>
    decreases rows.len(),
{
    if rows.len() == 0 {
        Seq::empty()
    } else if rows.len() == 1 {
        csv_line(rows[0]@)
    } else {
        csv_body(rows.drop_last()) + seq!['\n'] + csv_line(rows.last()@)
    }
}

/// The CSV rendering of a whole table: the header line, a newline, and
/// the body.
pub open spec fn csv_text(header: Seq<String>, rows: Seq<Vec<String>>) -> Seq<char> {
    csv_line(header) + seq!['\n'] + csv_body(rows)
}

/// Appends the CSV rendering of one field.
fn append_csv_field(out: &mut String, s: &String)
    ensures
        final(out)@ == old(out)@ + csv_field(s@),
{
    let has_newline = crate::codec::check_has(s.as_str(), '\n');
    let has_return = crate::codec::check_has(s.as_str(), '\r');
    let has_comma = crate::codec::check_has(s.as_str(), ',');
    if has_newline || has_return || has_comma {
        proof {
            crate::codec::lemma_first_of2_props(s@, '\n', '\n');
            crate::codec::lemma_first_of2_props(s@, '\r', '\r');
            crate::codec::lemma_first_of2_props(s@, ',', ',');
            lemma_single_finds(s@);
        }
        push_char(out, '"');
        out.append(s.as_str());
        push_char(out, '"');
        proof {
            assert(out@ =~= old(out)@ + (seq!['"'] + s@ + seq!['"']));
        }
    } else {
        proof {
            lemma_single_finds(s@);
        }
        out.append(s.as_str());
    }
}

/// Looking for one character twice is looking for it among two.
proof fn lemma_single_finds(s: Seq<char>)
    ensures
        needs_quote(s) <==> (first_of2(s, '\n', '\n') < s.len() || first_of2(s, '\r', '\r')
            < s.len() || first_of2(s, ',', ',') < s.len()),
{
    lemma_find_pair_split(s, '\n', '\r');
}

/// The first of two characters occurs exactly when one of them occurs.
proof fn lemma_find_pair_split(s: Seq<char>, a: char, b: char)
    ensures
        first_of2(s, a, b) < s.len() <==> (first_of2(s, a, a) < s.len() || first_of2(s, b, b)
            < s.len()),
    decreases s.len(),
{
    if s.len() > 0 {
        if s[0] == a || s[0] == b {
        } else {
            lemma_find_pair_split(s.skip(1), a, b);
            crate::codec::lemma_first_of2_props(s.skip(1), a, b);
            crate::codec::lemma_first_of2_props(s.skip(1), a, a);
            crate::codec::lemma_first_of2_props(s.skip(1), b, b);
        }
    }
}

/// Appends the CSV rendering of one line.
fn append_csv_line(out: &mut String, row: &Vec<String>)
    ensures
        final(out)@ == old(out)@ + csv_line(row@),
{
    let mut j: usize = 0;
    while j < row.len()
        invariant
            j <= row@.len(),
            out@ == old(out)@ + csv_line(row@.take(j as int)),
        decreases row@.len() - j,
    {
        proof {
            assert(row@.take(j + 1).drop_last() =~= row@.take(j as int));
            assert(row@.take(j + 1).last() == row@[j as int]);
        }
        if j > 0 {
            push_char(out, ',');
        }
        append_csv_field(out, &row[j]);
        j += 1;
    }
    proof {
        assert(row@.take(row@.len() as int) =~= row@);
    }
}

/// Output format for the listing commands that print data.
#[derive(Debug, Copy, Clone, PartialEq, Eq, Structural)]
pub enum OutputFormat {
    /// A pretty table
    Table,
    /// CSV with comma as separator
    CSV,
    /// JSON
    JSON,
    /// YAML
    YAML,
}

impl OutputFormat {
    /// The format's name on the command line.
    pub fn name(&self) -> (r: &'static str)
        ensures
            r@ == match self {
                OutputFormat::Table => "table"@,
                OutputFormat::CSV => "csv"@,
                OutputFormat::JSON => "json"@,
                OutputFormat::YAML => "yaml"@,
            },
    {
        match self {
            OutputFormat::Table => "table",
            OutputFormat::CSV => "csv",
            OutputFormat::JSON => "json",
            OutputFormat::YAML => "yaml",
        }
    }
}

/// A generic table: a header and one list of cells per row.
#[derive(Debug)]
pub struct GenericTable {
    pub header: Vec<String>,
    pub rows: Vec<Vec<String>>,
}

impl GenericTable {
    pub fn new(header: Vec<String>, rows: Vec<Vec<String>>) -> (r: GenericTable)
        ensures
            r == (GenericTable { header, rows }),
    {
        GenericTable { header, rows }
    }

    /// Joins another table of the same height column-wise: the headers are
    /// concatenated, and each row is extended by the other table's cells.
    pub fn append(&mut self, other: GenericTable)
        requires
            old(self).rows@.len() == other.rows@.len(),
        ensures
            final(self).header@ == old(self).header@ + other.header@,
            final(self).rows@.len() == old(self).rows@.len(),
            forall|k: int|
                0 <= k < final(self).rows@.len() ==> (#[trigger] final(self).rows@[k])@ == old(
                    self,
                ).rows@[k]@ + other.rows@[k]@,
    {
        let mut other = other;
        let ghost other_start = other;
        append_strings(&mut self.header, &mut other.header);
        let mut k: usize = 0;
        while k < self.rows.len()
            invariant
                k <= self.rows@.len(),
                self.rows@.len() == old(self).rows@.len(),
                other.rows@.len() == old(self).rows@.len(),
                other.rows@ == other_start.rows@,
                self.header@ == old(self).header@ + other_start.header@,
                forall|w: int|
                    0 <= w < k ==> (#[trigger] self.rows@[w])@ == old(self).rows@[w]@
                        + other_start.rows@[w]@,
                forall|w: int| k <= w < self.rows@.len() ==> #[trigger] self.rows@[w]
                    == old(self).rows@[w],
            decreases self.rows@.len() - k,
        {
            let mut extension: Vec<String> = Vec::new();
            let mut j: usize = 0;
            while j < other.rows[k].len()
                invariant
                    k < self.rows@.len(),
                    k < other.rows@.len(),
                    j <= other.rows@[k as int]@.len(),
                    extension@.len() == j,
                    forall|w: int|
                        0 <= w < j ==> #[trigger] extension@[w] == other.rows@[k as int]@[w],
                decreases other.rows@[k as int]@.len() - j,
            {
                extension.push(other.rows[k][j].clone());
                j += 1;
            }
            proof {
                assert(extension@ =~= other.rows@[k as int]@);
            }
            let mut combined: Vec<String> = Vec::new();
            let mut j2: usize = 0;
            while j2 < self.rows[k].len()
                invariant
                    k < self.rows@.len(),
                    j2 <= self.rows@[k as int]@.len(),
                    combined@.len() == j2,
                    forall|w: int|
                        0 <= w < j2 ==> #[trigger] combined@[w] == self.rows@[k as int]@[w],
                decreases self.rows@[k as int]@.len() - j2,
            {
                combined.push(self.rows[k][j2].clone());
                j2 += 1;
            }
            proof {
                assert(combined@ =~= self.rows@[k as int]@);
            }
            let mut extension = extension;
            append_strings(&mut combined, &mut extension);
            self.rows.set(k, combined);
            k += 1;
        }
    }

    /// Renders the table as CSV text: the header line and one line per
    /// row, fields joined with commas and quoted when they hold a comma,
    /// newline or carriage return.
    pub fn write_csv(&self) -> (r: String)
        ensures
            r@ == csv_text(self.header@, self.rows@),
    {
        let mut out = String::new();
        append_csv_line(&mut out, &self.header);
        push_char(&mut out, '\n');
        let mut i: usize = 0;
        while i < self.rows.len()
            invariant
                i <= self.rows@.len(),
                out@ == csv_line(self.header@) + seq!['\n'] + csv_body(self.rows@.take(i as int)),
            decreases self.rows@.len() - i,
        {
            proof {
                assert(self.rows@.take(i + 1).drop_last() =~= self.rows@.take(i as int));
                assert(self.rows@.take(i + 1).last() == self.rows@[i as int]);
            }
            if i > 0 {
                push_char(&mut out, '\n');
            }
            append_csv_line(&mut out, &self.rows[i]);
            proof {
                assert(out@ =~= csv_line(self.header@) + seq!['\n'] + csv_body(
                    self.rows@.take(i + 1),
                ));
            }
            i += 1;
        }
        proof {
            assert(self.rows@.take(self.rows@.len() as int) =~= self.rows@);
            assert(out@ =~= csv_text(self.header@, self.rows@));
        }
        out
    }
}

/// Appends `extra` to `base`.
fn append_strings(base: &mut Vec<String>, extra: &mut Vec<String>)
    ensures
        final(base)@ == old(base)@ + old(extra)@,
{
    base.append(extra);
}

/// Format a variable value for printing: newlines and carriage returns
/// are removed so that the value fits a single table or CSV line.
pub fn format_variable_value(value: &str) -> (r: String)
    ensures
        r@ == value@.filter(printable_char()),
{
    let mut out = String::new();
    let n = value.unicode_len();
    let mut i: usize = 0;
    while i < n
        invariant
            i <= n,
            n == value@.len(),
            out@ == value@.take(i as int).filter(printable_char()),
        decreases n - i,
    {
        proof {
            crate::sets::lemma_filter_take_step(value@, printable_char(), i as int);
        }
        let c = value.get_char(i);
        if c != '\n' && c != '\r' {
            push_char(&mut out, c);
        }
        i += 1;
    }
    proof {
        crate::sets::lemma_filter_take_all(value@, printable_char());
    }
    out
}

/// The characters that survive `format_variable_value`.
pub open spec fn printable_char() -> spec_fn(char) -> bool {
    |c: char| c != '\n' && c != '\r'
}

/// Returns a string for displaying in a table that represents the given
/// variable: its name, with the unit in parentheses for a `Unit` variable.
pub fn variable_to_table_display(variable: &Variable) -> (r: String)
    ensures
        r@ == match variable.data_type {
            DataType::Unit(u) => variable.name@ + " ("@ + u@ + ")"@,
            _ => variable.name@,
        },
{
    match &variable.data_type {
        DataType::Unit(u) => {
            let mut out = String::new();
            out.append(variable.name.as_str());
            out.append(" (");
            out.append(u.as_str());
            out.append(")");
            proof {
                assert(out@ =~= variable.name@ + " ("@ + u@ + ")"@);
            }
            out
        },
        _ => {
            let mut out = String::new();
            out.append(variable.name.as_str());
            proof {
                assert(out@ =~= variable.name@);
            }
            out
        },
    }
}

} // verus!
