use totpkeep::table::{
    progress_line, Alignment, AsciiTableSymbols, RowFormat, StringTableFormatter, Table,
    UnicodeTableSymbols,
};

fn two_column_table() -> Table {
    let mut table = Table::new();
    table.add_field("a");
    table.add_field("b");
    table.append_header("a", "A");
    table.append_header("b", "B");
    table.add_row(&["a", "b"], &["x", "yy"]);
    table
}

#[test]
fn ascii_format_exact() {
    let table = two_column_table();
    let mut formatter = StringTableFormatter::new(AsciiTableSymbols);
    formatter.rows.push(RowFormat::default());
    formatter.rows.push(RowFormat::default());
    let out = formatter.format(&table);
    assert_eq!(out, " A | B  \n---+----\n x | yy \n");
}

#[test]
fn left_alignment() {
    let mut table = Table::new();
    table.add_field("n");
    table.append_header("n", "Name");
    table.add_row(&["n"], &["x"]);
    let mut formatter = StringTableFormatter::new(AsciiTableSymbols);
    formatter.rows.push(RowFormat { padding: 1, alignment: Alignment::Left, row_numbers: false });
    let out = formatter.format(&table);
    assert_eq!(out, " Name \n------\n x    \n");
}

#[test]
fn unicode_format_has_borders() {
    let table = two_column_table();
    let mut formatter = StringTableFormatter::new(UnicodeTableSymbols);
    formatter.rows.push(RowFormat::default());
    formatter.rows.push(RowFormat::default());
    let out = formatter.format(&table);
    let lines: Vec<&str> = out.lines().collect();
    assert_eq!(lines.len(), 5);
    assert_eq!(lines[0], "┌───┬────┐");
    assert_eq!(lines[1], "│ A │ B  │");
    assert_eq!(lines[2], "├───┼────┤");
    assert_eq!(lines[3], "│ x │ yy │");
    assert_eq!(lines[4], "└───┴────┘");
}

#[test]
fn widths_follow_longest_cell() {
    let mut table = Table::new();
    table.add_field("c");
    table.append_header("c", "C");
    table.add_row(&["c"], &["short"]);
    table.add_row(&["c"], &["a much longer cell"]);
    let mut formatter = StringTableFormatter::new(AsciiTableSymbols);
    formatter.rows.push(RowFormat::default());
    let out = formatter.format(&table);
    for line in out.lines() {
        assert_eq!(line.chars().count(), 20);
    }
}

#[test]
fn cell_lookup() {
    let table = two_column_table();
    assert_eq!(table.get_cell_data(0, 0), Some(&"x".to_string()));
    assert_eq!(table.get_cell_data(0, 1), Some(&"yy".to_string()));
}

#[test]
fn missing_cell_is_none() {
    let mut table = Table::new();
    table.add_field("a");
    table.add_field("b");
    table.add_row(&["a"], &["only a"]);
    assert_eq!(table.get_cell_data(0, 1), None);
}

#[test]
fn row_format_default_values() {
    let f = RowFormat::default();
    assert_eq!(f.padding, 1);
    assert!(matches!(f.alignment, Alignment::Middle));
    assert!(!f.row_numbers);
}

#[test]
fn progress_line_ascii() {
    let line = progress_line(&AsciiTableSymbols, 5);
    assert_eq!(line, "[=====                         ]\n");
    let full = progress_line(&AsciiTableSymbols, 30);
    assert_eq!(full, "[==============================]\n");
}
