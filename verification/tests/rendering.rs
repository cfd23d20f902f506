use tabalign::column::Column;
use tabalign::column::ColumnType;
use tabalign::table::DelimitedFile;

fn analyzed(header: &str, rows: &[&str]) -> (DelimitedFile, Vec<String>) {
    let mut dfile = DelimitedFile::new();
    dfile.read_headers(header);
    let lines: Vec<String> = rows.iter().map(|l| l.to_string()).collect();
    dfile.analyze_rows(&lines);
    (dfile, lines)
}

#[test]
fn render_scenario_aligns_by_type() {
    let (dfile, lines) = analyzed("id\tname\tscore", &["1\talice\t9.5", "2\tbob\t10"]);
    assert_eq!(dfile.print_aligned_header(), "id name  score \n");
    let out = dfile.print_aligned_rows(&lines);
    assert_eq!(out, " 1 alice   9.5 \n 2 bob      10 \n");
}

#[test]
fn print_length_caps_at_configured_maximum() {
    let mut dfile = DelimitedFile::new();
    dfile.set_max_value_length(Some(4));
    let col = Column {
        name: "wide".to_string(),
        kind: ColumnType::Textual,
        max_length: 10,
    };
    assert_eq!(dfile.print_length(&col), 4);
    dfile.set_max_value_length(None);
    assert_eq!(dfile.print_length(&col), 10);
}

#[test]
fn truncation_cuts_to_print_length_before_alignment() {
    let mut dfile = DelimitedFile::new();
    dfile.set_max_value_length(Some(4));
    let textual = Column {
        name: "t".to_string(),
        kind: ColumnType::Textual,
        max_length: 10,
    };
    assert_eq!(dfile.format_value("abcdefgh", &textual), "abcd ");
    let numeric = Column {
        name: "n".to_string(),
        kind: ColumnType::Numeric,
        max_length: 10,
    };
    assert_eq!(dfile.format_value("123456789", &numeric), "1234 ");
}

#[test]
fn padding_follows_column_type() {
    let dfile = DelimitedFile::new();
    let textual = Column {
        name: "t".to_string(),
        kind: ColumnType::Textual,
        max_length: 6,
    };
    assert_eq!(dfile.format_value("ab", &textual), "ab     ");
    let numeric = Column {
        name: "n".to_string(),
        kind: ColumnType::Numeric,
        max_length: 6,
    };
    assert_eq!(dfile.format_value("12", &numeric), "    12 ");
}

#[test]
fn render_is_idempotent_over_one_analysis() {
    let (mut dfile, lines) = analyzed("id\tword", &["1\talpha", "2\tbeta", "300\tc"]);
    dfile.set_header_repeat(Some(2));
    let first = dfile.print_aligned_rows(&lines);
    let second = dfile.print_aligned_rows(&lines);
    assert_eq!(first, second);
}

#[test]
fn header_repeats_after_every_nth_row() {
    let (mut dfile, lines) = analyzed("h", &["1", "2", "3", "4", "5"]);
    dfile.set_header_repeat(Some(2));
    let out = dfile.print_aligned_rows(&lines);
    assert_eq!(out, "1 \n2 \nh \n3 \n4 \nh \n5 \n");
}

#[test]
fn header_repeat_disabled_never_repeats() {
    let (mut dfile, lines) = analyzed("h", &["1", "2", "3", "4", "5"]);
    dfile.set_header_repeat(None);
    let out = dfile.print_aligned_rows(&lines);
    assert_eq!(out, "1 \n2 \n3 \n4 \n5 \n");
}

#[test]
fn short_and_long_rows_render_without_error() {
    let (dfile, _) = analyzed("a\tbb\tccc", &["1\t2\t3"]);
    let narrow = vec!["x".to_string()];
    assert_eq!(dfile.print_aligned_rows(&narrow), "x \n");
    let wide = vec!["x\ty\tz\textra\tmore".to_string()];
    assert_eq!(dfile.print_aligned_rows(&wide), "x  y   z \n");
}

#[test]
fn borders_draw_rules_and_separators() {
    let (mut dfile, lines) = analyzed("h\tn", &["ab\t1"]);
    dfile.set_borders(true);
    assert_eq!(dfile.print_aligned_header(), "──┼─┼\nh │n│\n──┼─┼\n");
    let out = dfile.print_aligned_rows(&lines);
    assert_eq!(out, "ab│1│\n");
}

#[test]
fn header_names_render_as_plain_text() {
    // `id` is a numeric column (width 3) whose values right-align, but its
    // name still renders left-aligned: header cells are not type-aware.
    let (dfile, lines) = analyzed("id\tname", &["123\talice"]);
    assert_eq!(dfile.print_aligned_header(), "id  name  \n");
    assert_eq!(dfile.print_aligned_rows(&lines), "123 alice \n");
}
