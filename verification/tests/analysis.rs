use tabalign::column::Column;
use tabalign::column::ColumnType;
use tabalign::table::DelimitedFile;

#[test]
fn test_column() {
    let mut text_column = Column {
        name: "Test Col".to_string(),
        kind: ColumnType::Textual,
        max_length: 0,
    };
    text_column.update("1234");
    assert_eq!(text_column.max_length, 4);
    text_column.update("12345678");
    assert_eq!(text_column.max_length, 8);
}

#[test]
fn test_print_length() {
    let data = "header1\theader2\nvalue1\tvalue2\n";
    let nl = data.find('\n').unwrap();
    let (header, rest) = data.split_at(nl + 1);
    let mut dfile = DelimitedFile::new();
    dfile.set_max_value_length(Some(4));
    dfile.read_headers(header);
    assert_eq!(dfile.cols.len(), 2);
    let lines: Vec<String> = rest.lines().map(|l| l.to_string()).collect();
    dfile.analyze_rows(&lines);
    assert_eq!(dfile.print_length(&dfile.cols[0]), 4);
    dfile.set_max_value_length(Some(40));
    assert_eq!(dfile.print_length(&dfile.cols[0]), 7);
}

#[test]
fn column_new_trims_and_starts_numeric() {
    let c = Column::new("  score \n");
    assert_eq!(c.name, "score");
    assert_eq!(c.kind, ColumnType::Numeric);
    assert_eq!(c.max_length, 5);
}

#[test]
fn update_keeps_textual_permanent() {
    let mut c = Column::new("n");
    c.update("hello");
    assert_eq!(c.kind, ColumnType::Textual);
    c.update("42");
    assert_eq!(c.kind, ColumnType::Textual);
    c.update("3.5");
    assert_eq!(c.kind, ColumnType::Textual);
}

#[test]
fn update_widens_to_widest_value() {
    let mut c = Column::new("id");
    c.update("7");
    assert_eq!(c.max_length, 2);
    c.update("12345");
    assert_eq!(c.max_length, 5);
    c.update("99");
    assert_eq!(c.max_length, 5);
}

#[test]
fn empty_field_forces_textual() {
    let mut c = Column::new("b");
    c.update("");
    assert_eq!(c.kind, ColumnType::Textual);
}

#[test]
fn line_parse_trims_and_keeps_empty_fields() {
    let toks = DelimitedFile::line_parse("  a \t b\t");
    assert_eq!(toks, vec!["a".to_string(), "b".to_string(), "".to_string()]);
}

#[test]
fn line_parse_empty_line_is_one_empty_field() {
    let toks = DelimitedFile::line_parse("");
    assert_eq!(toks, vec!["".to_string()]);
}

#[test]
fn read_headers_empty_file_yields_empty_model() {
    let mut dfile = DelimitedFile::new();
    dfile.read_headers("");
    assert_eq!(dfile.cols.len(), 0);
    assert_eq!(dfile.header_bytes, 0);
}

#[test]
fn read_headers_records_byte_offset() {
    let mut dfile = DelimitedFile::new();
    dfile.read_headers("ab\tc\n");
    assert_eq!(dfile.cols.len(), 2);
    assert_eq!(dfile.header_bytes, 5);
}

#[test]
fn analysis_scenario_infers_types_and_widths() {
    let mut dfile = DelimitedFile::new();
    dfile.read_headers("id\tname\tscore");
    let lines = vec!["1\talice\t9.5".to_string(), "2\tbob\t10".to_string()];
    dfile.analyze_rows(&lines);
    assert_eq!(dfile.cols.len(), 3);
    assert_eq!(dfile.cols[0].name, "id");
    assert_eq!(dfile.cols[0].kind, ColumnType::Numeric);
    assert_eq!(dfile.cols[0].max_length, 2);
    assert_eq!(dfile.cols[1].name, "name");
    assert_eq!(dfile.cols[1].kind, ColumnType::Textual);
    assert_eq!(dfile.cols[1].max_length, 5);
    assert_eq!(dfile.cols[2].name, "score");
    assert_eq!(dfile.cols[2].kind, ColumnType::Numeric);
    assert_eq!(dfile.cols[2].max_length, 5);
}

#[test]
fn trailing_empty_field_flips_column_without_widening() {
    let mut dfile = DelimitedFile::new();
    dfile.read_headers("a\tb");
    let lines = vec!["x\t".to_string()];
    dfile.analyze_rows(&lines);
    assert_eq!(dfile.cols[1].kind, ColumnType::Textual);
    assert_eq!(dfile.cols[1].max_length, 1);
}

#[test]
fn extra_fields_are_ignored_during_analysis() {
    let mut dfile = DelimitedFile::new();
    dfile.read_headers("a\tb");
    let lines = vec!["1\t2\tlong-extra-field".to_string()];
    dfile.analyze_rows(&lines);
    assert_eq!(dfile.cols.len(), 2);
    assert_eq!(dfile.cols[0].max_length, 1);
    assert_eq!(dfile.cols[1].max_length, 1);
    assert_eq!(dfile.cols[0].kind, ColumnType::Numeric);
    assert_eq!(dfile.cols[1].kind, ColumnType::Numeric);
}

#[test]
fn max_length_covers_header_and_every_value() {
    let mut dfile = DelimitedFile::new();
    dfile.read_headers("long-header\tv");
    let lines = vec!["a\t123".to_string(), "bb\t4".to_string()];
    dfile.analyze_rows(&lines);
    assert_eq!(dfile.cols[0].max_length, 11);
    assert_eq!(dfile.cols[1].max_length, 3);
}
