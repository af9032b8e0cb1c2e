//! Plain-text table rendering for the code listing.
//!
//! A [`Table`] collects named columns, one header per column and rows of
//! cell text; a [`StringTableFormatter`] renders it with a chosen symbol
//! set, Unicode box drawing or plain ASCII.  Column widths follow the
//! longest cell seen, measured in characters.

use vstd::prelude::*;
use crate::text::{chars_to_string, str_to_chars};

verus! {

/// The glyphs a formatter draws borders and dividers with.
pub trait TableSymbols {
    fn print_top(&self) -> bool;

    fn print_head_bottom(&self) -> bool;

    fn print_mid(&self) -> bool;

    fn print_bottom(&self) -> bool;

    fn top(&self) -> &'static str;

    fn top_mid(&self) -> &'static str;

    fn top_left(&self) -> &'static str;

    fn top_right(&self) -> &'static str;

    fn bottom(&self) -> &'static str;

    fn bottom_mid(&self) -> &'static str;

    fn bottom_left(&self) -> &'static str;

    fn bottom_right(&self) -> &'static str;

    fn mid(&self) -> &'static str;

    fn mid_mid(&self) -> &'static str;

    fn mid_left(&self) -> &'static str;

    fn mid_right(&self) -> &'static str;

    fn left(&self) -> &'static str;

    fn right(&self) -> &'static str;

    fn middle(&self) -> &'static str;

    fn progress_left(&self) -> &'static str;

    fn progress_right(&self) -> &'static str;

    fn progress_middle(&self) -> &'static str;
}

/// Box-drawing glyphs, with every border printed.
pub struct UnicodeTableSymbols;

impl TableSymbols for UnicodeTableSymbols {
    fn print_top(&self) -> bool {
        true
    }

    fn print_head_bottom(&self) -> bool {
        true
    }

    fn print_mid(&self) -> bool {
        true
    }

    fn print_bottom(&self) -> bool {
        true
    }

    fn top(&self) -> &'static str {
        "─"
    }

    fn top_mid(&self) -> &'static str {
        "┬"
    }

    fn top_left(&self) -> &'static str {
        "┌"
    }

    fn top_right(&self) -> &'static str {
        "┐"
    }

    fn bottom(&self) -> &'static str {
        "─"
    }

    fn bottom_mid(&self) -> &'static str {
        "┴"
    }

    fn bottom_left(&self) -> &'static str {
        "└"
    }

    fn bottom_right(&self) -> &'static str {
        "┘"
    }

    fn mid(&self) -> &'static str {
        "─"
    }

    fn mid_mid(&self) -> &'static str {
        "┼"
    }

    fn mid_left(&self) -> &'static str {
        "├"
    }

    fn mid_right(&self) -> &'static str {
        "┤"
    }

    fn left(&self) -> &'static str {
        "│"
    }

    fn right(&self) -> &'static str {
        "│"
    }

    fn middle(&self) -> &'static str {
        "│"
    }

    fn progress_left(&self) -> &'static str {
        "│"
    }

    fn progress_middle(&self) -> &'static str {
        "░"
    }

    fn progress_right(&self) -> &'static str {
        "│"
    }
}

/// Spartan glyphs for plain terminals: only the head divider is printed.
pub struct AsciiTableSymbols;

impl TableSymbols for AsciiTableSymbols {
    fn print_top(&self) -> bool {
        false
    }

    fn print_head_bottom(&self) -> bool {
        true
    }

    fn print_mid(&self) -> bool {
        false
    }

    fn print_bottom(&self) -> bool {
        false
    }

    fn top(&self) -> &'static str {
        ""
    }

    fn top_mid(&self) -> &'static str {
        ""
    }

    fn top_left(&self) -> &'static str {
        ""
    }

    fn top_right(&self) -> &'static str {
        ""
    }

    fn bottom(&self) -> &'static str {
        ""
    }

    fn bottom_mid(&self) -> &'static str {
        ""
    }

    fn bottom_left(&self) -> &'static str {
        ""
    }

    fn bottom_right(&self) -> &'static str {
        ""
    }

    fn mid(&self) -> &'static str {
        "-"
    }

    fn mid_mid(&self) -> &'static str {
        "+"
    }

    fn mid_left(&self) -> &'static str {
        ""
    }

    fn mid_right(&self) -> &'static str {
        ""
    }

    fn left(&self) -> &'static str {
        ""
    }

    fn right(&self) -> &'static str {
        ""
    }

    fn middle(&self) -> &'static str {
        "|"
    }

    fn progress_left(&self) -> &'static str {
        "["
    }

    fn progress_middle(&self) -> &'static str {
        "="
    }

    fn progress_right(&self) -> &'static str {
        "]"
    }
}

/// Where cell text sits within its column.
#[derive(Debug, Clone, Copy, PartialEq, Eq, Structural)]
pub enum Alignment {
    Left,
    Right,
    Middle,
}

/// How one column is rendered.
pub struct RowFormat {
    pub padding: u8,
    pub alignment: Alignment,
    pub row_numbers: bool,
}

impl RowFormat {
    /// One space of padding, centred text.
    pub fn default() -> (r: Self)
        ensures
            r.padding == 1,
            r.alignment == Alignment::Middle,
            !r.row_numbers,
    {
        RowFormat { padding: 1, alignment: Alignment::Middle, row_numbers: false }
    }
}

// ---------------------------------------------------------------------------
// Key-value lookups
// ---------------------------------------------------------------------------

/// The value stored under `k`, first entry wins.
pub open spec fn lookup_str(m: Seq<(String, String)>, k: Seq<char>) -> Option<Seq<char>>
    decreases m.len(),
{
    if m.len() == 0 {
        None
    } else if m[0].0@ == k {
        Some(m[0].1@)
    } else {
        lookup_str(m.drop_first(), k)
    }
}

/// The length stored under `k`, first entry wins.
pub open spec fn lookup_len(m: Seq<(String, usize)>, k: Seq<char>) -> Option<usize>
    decreases m.len(),
{
    if m.len() == 0 {
        None
    } else if m[0].0@ == k {
        Some(m[0].1)
    } else {
        lookup_len(m.drop_first(), k)
    }
}

fn get_str<'a>(m: &'a Vec<(String, String)>, k: &String) -> (r: Option<&'a String>)
    ensures
        r matches Some(v) ==> lookup_str(m@, k@) == Some(v@),
        r is None ==> lookup_str(m@, k@) is None,
{
    let mut i: usize = 0;
    proof {
        assert(m@.skip(0) =~= m@);
    }
    while i < m.len()
        invariant
            0 <= i <= m@.len(),
            lookup_str(m@, k@) == lookup_str(m@.skip(i as int), k@),
        decreases m@.len() - i,
    {
        proof {
            assert(m@.skip(i as int)[0] == m@[i as int]);
            assert(m@.skip(i as int).drop_first() =~= m@.skip(i + 1));
        }
        if m[i].0 == *k {
            return Some(&m[i].1);
        }
        i = i + 1;
    }
    proof {
        assert(m@.skip(i as int).len() == 0);
    }
    None
}

fn get_len(m: &Vec<(String, usize)>, k: &String) -> (r: Option<usize>)
    ensures
        r == lookup_len(m@, k@),
    decreases m@.len(),
{
    let mut i: usize = 0;
    proof {
        assert(m@.skip(0) =~= m@);
    }
    while i < m.len()
        invariant
            0 <= i <= m@.len(),
            lookup_len(m@, k@) == lookup_len(m@.skip(i as int), k@),
        decreases m@.len() - i,
    {
        proof {
            assert(m@.skip(i as int)[0] == m@[i as int]);
            assert(m@.skip(i as int).drop_first() =~= m@.skip(i + 1));
        }
        if m[i].0 == *k {
            return Some(m[i].1);
        }
        i = i + 1;
    }
    proof {
        assert(m@.skip(i as int).len() == 0);
    }
    None
}

// ---------------------------------------------------------------------------
// The table
// ---------------------------------------------------------------------------

/// Named columns, their headers, rows of cell text, and the widest cell seen
/// per column.
pub struct Table {
    pub fields: Vec<String>,
    pub headers: Vec<(String, String)>,
    pub rows: Vec<Vec<(String, String)>>,
    pub max_len: Vec<(String, usize)>,
}

/// The character views of one row's cells.
pub open spec fn row_view(row: Seq<(String, String)>) -> Seq<(Seq<char>, Seq<char>)> {
    Seq::new(row.len(), |i: int| (row[i].0@, row[i].1@))
}

impl Table {
    /// The width recorded for `name`, zero when nothing was recorded.
    pub open spec fn width_of(&self, name: Seq<char>) -> usize {
        match lookup_len(self.max_len@, name) {
            Some(l) => l,
            None => 0,
        }
    }

    /// An empty table.
    pub fn new() -> (r: Self)
        ensures
            r.fields@.len() == 0,
            r.headers@.len() == 0,
            r.rows@.len() == 0,
            r.max_len@.len() == 0,
    {
        Table { fields: Vec::new(), headers: Vec::new(), rows: Vec::new(), max_len: Vec::new() }
    }

    /// Adds a column after the existing ones.
    pub fn add_field(&mut self, name: &str)
        ensures
            final(self).fields@.len() == old(self).fields@.len() + 1,
            final(self).fields@.last()@ == name@,
            forall|i: int|
                0 <= i < old(self).fields@.len() ==> final(self).fields@[i] == old(
                    self,
                ).fields@[i],
            final(self).headers == old(self).headers,
            final(self).rows == old(self).rows,
            final(self).max_len == old(self).max_len,
    {
        self.fields.push(name.to_owned());
    }

    /// Widens the recorded width of `name` to `len` if it grew.
    fn update_max_len(&mut self, name: &str, len: usize)
        ensures
            final(self).fields == old(self).fields,
            final(self).headers == old(self).headers,
            final(self).rows == old(self).rows,
            len > old(self).width_of(name@) ==> lookup_len(final(self).max_len@, name@) == Some(
                len,
            ),
            len <= old(self).width_of(name@) ==> final(self).max_len == old(self).max_len,
            forall|k: Seq<char>|
                k != name@ ==> lookup_len(final(self).max_len@, k) == lookup_len(
                    old(self).max_len@,
                    k,
                ),
    {
        let key = name.to_owned();
        let ms = match get_len(&self.max_len, &key) {
            Some(l) => l,
            None => 0,
        };
        if len > ms {
            let ghost before = self.max_len@;
            self.max_len.insert(0, (key, len));
            proof {
                assert(self.max_len@.drop_first() =~= before);
            }
        }
    }

    /// Sets the header text of a column and widens it accordingly.
    pub fn append_header(&mut self, name: &str, value: &str)
        ensures
            final(self).fields == old(self).fields,
            final(self).rows == old(self).rows,
            lookup_str(final(self).headers@, name@) == Some(value@),
            forall|k: Seq<char>|
                k != name@ ==> lookup_str(final(self).headers@, k) == lookup_str(
                    old(self).headers@,
                    k,
                ),
            value@.len() > old(self).width_of(name@) ==> lookup_len(
                final(self).max_len@,
                name@,
            ) == Some(value@.len() as usize),
            value@.len() <= old(self).width_of(name@) ==> final(self).max_len == old(
                self,
            ).max_len,
            forall|k: Seq<char>|
                k != name@ ==> lookup_len(final(self).max_len@, k) == lookup_len(
                    old(self).max_len@,
                    k,
                ),
    {
        let ghost before = self.headers@;
        self.headers.insert(0, (name.to_owned(), value.to_owned()));
        proof {
            assert(self.headers@.drop_first() =~= before);
        }
        let vc = str_to_chars(value);
        self.update_max_len(name, vc.len());
    }

    /// The text of one cell, by row and column position.
    pub fn get_cell_data(&self, row: usize, column: usize) -> (r: Option<&String>)
        requires
            row < self.rows@.len(),
            column < self.fields@.len(),
        ensures
            r matches Some(v) ==> lookup_str(
                self.rows@[row as int]@,
                self.fields@[column as int]@,
            ) == Some(v@),
            r is None ==> lookup_str(self.rows@[row as int]@, self.fields@[column as int]@)
                is None,
    {
        let field_name = &self.fields[column];
        get_str(&self.rows[row], field_name)
    }

    /// Appends a row given parallel column names and cell texts, widening
    /// every named column to its cell.
    pub fn add_row(&mut self, names: &[&str], values: &[&str])
        requires
            names@.len() <= values@.len(),
        ensures
            final(self).fields == old(self).fields,
            final(self).headers == old(self).headers,
            final(self).rows@.len() == old(self).rows@.len() + 1,
            forall|i: int|
                0 <= i < old(self).rows@.len() ==> final(self).rows@[i] == old(self).rows@[i],
            row_view(final(self).rows@.last()@) == Seq::new(
                names@.len(),
                |q: int| (names@[q]@, values@[q]@),
            ),
            forall|k: Seq<char>|
                (forall|i: int| 0 <= i < names@.len() ==> names@[i]@ != k) ==> lookup_len(
                    final(self).max_len@,
                    k,
                ) == lookup_len(old(self).max_len@, k),
    {
        let mut row: Vec<(String, String)> = Vec::new();
        let mut i: usize = 0;
        while i < names.len()
            invariant
                0 <= i <= names@.len(),
                names@.len() <= values@.len(),
                self.fields == old(self).fields,
                self.headers == old(self).headers,
                self.rows == old(self).rows,
                row@.len() == i,
                forall|q: int|
                    0 <= q < i ==> (#[trigger] row@[q]).0@ == names@[q]@ && row@[q].1@
                        == values@[q]@,
                forall|k: Seq<char>|
                    (forall|j: int| 0 <= j < i ==> names@[j]@ != k) ==> lookup_len(
                        self.max_len@,
                        k,
                    ) == lookup_len(old(self).max_len@, k),
            decreases names@.len() - i,
        {
            let k = names[i];
            let v = values[i];
            row.push((k.to_owned(), v.to_owned()));
            let vc = str_to_chars(v);
            self.update_max_len(k, vc.len());
            i = i + 1;
        }
        proof {
            assert(row_view(row@) =~= Seq::new(names@.len(), |q: int| (names@[q]@, values@[q]@)));
        }
        self.rows.push(row);
    }
}

// ---------------------------------------------------------------------------
// The formatter
// ---------------------------------------------------------------------------

/// Renders a [`Table`] as text using a symbol set; `rows` holds one
/// [`RowFormat`] per column, in column order.
pub struct StringTableFormatter<S: TableSymbols> {
    pub table_symbols: S,
    pub rows: Vec<RowFormat>,
}

/// `count` copies of `sym`, one after another.
fn repeat_str(sym: &str, count: usize) -> (r: Vec<char>)
    ensures
        r@.len() == count * sym@.len(),
        sym@.len() == 1 ==> (forall|i: int| 0 <= i < r@.len() ==> r@[i] == sym@[0]),
{
    let sc = str_to_chars(sym);
    let mut r: Vec<char> = Vec::new();
    let mut k: usize = 0;
    while k < count
        invariant
            0 <= k <= count,
            sc@ == sym@,
            r@.len() == k * sc@.len(),
            sc@.len() == 1 ==> (forall|i: int| 0 <= i < r@.len() ==> r@[i] == sc@[0]),
        decreases count - k,
    {
        let mut j: usize = 0;
        while j < sc.len()
            invariant
                0 <= j <= sc@.len(),
                sc@ == sym@,
                r@.len() == k * sc@.len() + j,
                sc@.len() == 1 ==> (forall|i: int| 0 <= i < r@.len() ==> r@[i] == sc@[0]),
            decreases sc@.len() - j,
        {
            r.push(sc[j]);
            j = j + 1;
        }
        proof {
            assert((k + 1) * sc@.len() == k * sc@.len() + sc@.len()) by (nonlinear_arith);
        }
        k = k + 1;
    }
    r
}

impl<S: TableSymbols> StringTableFormatter<S> {
    /// A formatter over the given symbols, with no column formats yet.
    pub fn new(symbols: S) -> (r: Self)
        ensures
            r.rows@.len() == 0,
    {
        StringTableFormatter { table_symbols: symbols, rows: Vec::new() }
    }

    /// The width of the widest cell recorded for a column.
    fn get_field_data_max_len(&self, index: usize, table: &Table) -> (r: usize)
        requires
            index < table.fields@.len(),
        ensures
            r == table.width_of(table.fields@[index as int]@),
    {
        match get_len(&table.max_len, &table.fields[index]) {
            Some(l) => l,
            None => 0,
        }
    }

    /// A column's rendered width: its data width plus padding either side,
    /// capped at the machine limit.
    fn get_field_formatted_len(&self, index: usize, table: &Table) -> (r: usize)
        requires
            index < table.fields@.len(),
            index < self.rows@.len(),
        ensures
            r == self.formatted_len(index as int, table),
    {
        let padding = self.rows[index].padding as usize;
        let field_len = self.get_field_data_max_len(index, table);
        if field_len <= usize::MAX - 2 * padding {
            2 * padding + field_len
        } else {
            usize::MAX
        }
    }

    /// What [`Self::get_field_formatted_len`] computes: the recorded column
    /// width plus padding either side, capped at the machine limit.
    pub open spec fn formatted_len(&self, index: int, table: &Table) -> usize {
        let padding = self.rows@[index].padding as int;
        let field_len = table.width_of(table.fields@[index]@) as int;
        if field_len + 2 * padding <= usize::MAX {
            (field_len + 2 * padding) as usize
        } else {
            usize::MAX
        }
    }

    /// The divider segment under one column: the fill symbol repeated over
    /// the column's whole rendered width.
    fn format_div_cell(&self, index: usize, table: &Table, symbol: &str) -> (r: Vec<char>)
        requires
            index < table.fields@.len(),
            index < self.rows@.len(),
        ensures
            r@.len() == self.formatted_len(index as int, table) * symbol@.len(),
    {
        let length = self.get_field_formatted_len(index, table);
        repeat_str(symbol, length)
    }

    /// One cell's text padded and aligned to its column width: the text
    /// itself, alignment spaces up to the column's recorded width, and the
    /// padding on both sides.
    fn format_data_cell(&self, index: usize, table: &Table, data: &str) -> (r: Vec<char>)
        requires
            index < table.fields@.len(),
            index < self.rows@.len(),
        ensures
            r@.len() == 2 * (self.rows@[index as int].padding as int) + (if data@.len() > table.width_of(table.fields@[index as int]@) { data@.len() as int } else { table.width_of(table.fields@[index as int]@) as int }),
    {
        let padding = self.rows[index].padding as usize;
        let field_len = self.get_field_data_max_len(index, table);
        let dc = str_to_chars(data);
        let w = if dc.len() > field_len {
            dc.len()
        } else {
            field_len
        };
        let fill = w - dc.len();
        let (left_fill, right_fill): (usize, usize) = match self.rows[index].alignment {
            Alignment::Left => (0, fill),
            Alignment::Right => (fill, 0),
            Alignment::Middle => (fill / 2, fill - fill / 2),
        };
        let mut r = repeat_str(" ", padding);
        let mut part = repeat_str(" ", left_fill);
        r.append(&mut part);
        let mut dm = dc;
        r.append(&mut dm);
        let mut part2 = repeat_str(" ", right_fill);
        r.append(&mut part2);
        let mut part3 = repeat_str(" ", padding);
        r.append(&mut part3);
        proof {
            reveal_strlit(" ");
        }
        r
    }

    /// A divider row across every column.
    fn format_div_row(&self, table: &Table, left: &str, middle: &str, right: &str, fill: &str) -> (r:
        Vec<char>)
        requires
            self.rows@.len() >= table.fields@.len(),
    {
        let mut line = str_to_chars(left);
        let max_index = table.fields.len();
        let mut index: usize = 0;
        while index < max_index
            invariant
                max_index == table.fields@.len(),
                self.rows@.len() >= table.fields@.len(),
            decreases max_index - index,
        {
            let mut cell = self.format_div_cell(index, table, fill);
            line.append(&mut cell);
            if max_index - index > 1 {
                let mut m = str_to_chars(middle);
                line.append(&mut m);
            }
            index = index + 1;
        }
        let mut rgt = str_to_chars(right);
        line.append(&mut rgt);
        line
    }

    /// One data row: every column's cell for the given row index.
    fn format_data_row(&self, table: &Table, left: &str, middle: &str, right: &str, row: usize) -> (r:
        Vec<char>)
        requires
            self.rows@.len() >= table.fields@.len(),
            row < table.rows@.len(),
    {
        let mut line = str_to_chars(left);
        let max_column = table.fields.len();
        let mut column: usize = 0;
        while column < max_column
            invariant
                max_column == table.fields@.len(),
                self.rows@.len() >= table.fields@.len(),
                row < table.rows@.len(),
            decreases max_column - column,
        {
            let mut cell = match table.get_cell_data(row, column) {
                Some(s) => {
                    let text = s.clone();
                    self.format_data_cell(column, table, text.as_str())
                },
                None => self.format_data_cell(column, table, ""),
            };
            line.append(&mut cell);
            if max_column - column > 1 {
                let mut m = str_to_chars(middle);
                line.append(&mut m);
            }
            column = column + 1;
        }
        let mut rgt = str_to_chars(right);
        line.append(&mut rgt);
        line
    }

    /// The top border, the header row and the head divider, as configured.
    fn format_header(&self, table: &Table) -> (r: Vec<char>)
        requires
            self.rows@.len() >= table.fields@.len(),
    {
        let mut result: Vec<char> = Vec::new();
        if self.table_symbols.print_top() {
            let mut line = self.format_div_row(
                table,
                self.table_symbols.top_left(),
                self.table_symbols.top_mid(),
                self.table_symbols.top_right(),
                self.table_symbols.top(),
            );
            result.append(&mut line);
            result.push('\n');
        }
        let mut lft = str_to_chars(self.table_symbols.left());
        result.append(&mut lft);
        let max_column = table.fields.len();
        let mut column: usize = 0;
        while column < max_column
            invariant
                max_column == table.fields@.len(),
                self.rows@.len() >= table.fields@.len(),
            decreases max_column - column,
        {
            let name = &table.fields[column];
            let mut cell = match get_str(&table.headers, name) {
                Some(s) => {
                    let text = s.clone();
                    self.format_data_cell(column, table, text.as_str())
                },
                None => self.format_data_cell(column, table, ""),
            };
            result.append(&mut cell);
            if max_column - column > 1 {
                let mut m = str_to_chars(self.table_symbols.middle());
                result.append(&mut m);
            }
            column = column + 1;
        }
        let mut rgt = str_to_chars(self.table_symbols.right());
        result.append(&mut rgt);
        result.push('\n');
        if self.table_symbols.print_head_bottom() {
            let mut line = self.format_div_row(
                table,
                self.table_symbols.mid_left(),
                self.table_symbols.mid_mid(),
                self.table_symbols.mid_right(),
                self.table_symbols.mid(),
            );
            result.append(&mut line);
            result.push('\n');
        }
        result
    }

    /// Every data row, with dividers between them when configured.
    fn format_body(&self, table: &Table) -> (r: Vec<char>)
        requires
            self.rows@.len() >= table.fields@.len(),
    {
        let mut result: Vec<char> = Vec::new();
        let rows_num = table.rows.len();
        let mut row: usize = 0;
        while row < rows_num
            invariant
                rows_num == table.rows@.len(),
                self.rows@.len() >= table.fields@.len(),
            decreases rows_num - row,
        {
            let mut line = self.format_data_row(
                table,
                self.table_symbols.left(),
                self.table_symbols.middle(),
                self.table_symbols.right(),
                row,
            );
            result.append(&mut line);
            result.push('\n');
            if rows_num - row > 1 && self.table_symbols.print_mid() {
                let mut div = self.format_div_row(
                    table,
                    self.table_symbols.mid_left(),
                    self.table_symbols.mid_mid(),
                    self.table_symbols.mid_right(),
                    self.table_symbols.mid(),
                );
                result.append(&mut div);
                result.push('\n');
            }
            row = row + 1;
        }
        result
    }

    /// The bottom border, when configured.
    fn format_footer(&self, table: &Table) -> (r: Vec<char>)
        requires
            self.rows@.len() >= table.fields@.len(),
    {
        let mut result: Vec<char> = Vec::new();
        if self.table_symbols.print_bottom() {
            let mut line = self.format_div_row(
                table,
                self.table_symbols.bottom_left(),
                self.table_symbols.bottom_mid(),
                self.table_symbols.bottom_right(),
                self.table_symbols.bottom(),
            );
            result.append(&mut line);
            result.push('\n');
        }
        result
    }

    /// The whole table: header, body and footer.
    pub fn format(&self, table: &Table) -> (r: String)
        requires
            self.rows@.len() >= table.fields@.len(),
    {
        let mut result = self.format_header(table);
        let mut body = self.format_body(table);
        result.append(&mut body);
        let mut footer = self.format_footer(table);
        result.append(&mut footer);
        chars_to_string(&result)
    }
}

/// The countdown bar under the listing: a frame around thirty slots, one
/// filled per second already passed in the current step.
pub fn progress_line<S: TableSymbols>(symbols: &S, secs_passed: u64) -> (r: String)
    requires
        1 <= secs_passed <= 30,
{
    let mut line = str_to_chars(symbols.progress_left());
    let mut filled = repeat_str(symbols.progress_middle(), secs_passed as usize);
    line.append(&mut filled);
    let mut blank = repeat_str(" ", 30 - secs_passed as usize);
    line.append(&mut blank);
    let mut rgt = str_to_chars(symbols.progress_right());
    line.append(&mut rgt);
    line.push('\n');
    chars_to_string(&line)
}

} // verus!
