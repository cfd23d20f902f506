//! The render pass: formats each field into a fixed-width cell according to
//! its column's type and width, assembles rows and rule lines, and repeats
//! the header block periodically.

use vstd::prelude::*;
use vstd::string::StringExecFns;
use crate::column::Column;
use crate::column::ColumnType;
use crate::table::DelimitedFile;
use crate::text::parse_line_spec;

verus! {

/// The width a column is rendered at: its measured width, capped by the
/// configured maximum if one is set.
pub open spec fn print_length_spec(col: Column, cap: Option<u16>) -> int {
    match cap {
        Some(c) => if col.max_length as int <= c as int {
            col.max_length as int
        } else {
            c as int
        },
        None => col.max_length as int,
    }
}

/// The glyph appended after every cell: a vertical bar with borders on, a
/// space otherwise.
pub open spec fn sep_char(borders: bool) -> char {
    if borders {
        '│'
    } else {
        ' '
    }
}

/// `n` spaces.
pub open spec fn spaces(n: int) -> Seq<char> {
    Seq::new(n as nat, |i: int| ' ')
}

/// `n` horizontal-bar glyphs.
pub open spec fn dashes(n: int) -> Seq<char> {
    Seq::new(n as nat, |i: int| '─')
}

/// One formatted cell: the value cut to the column's print length, padded to
/// exactly that length — on the right for textual columns (left-aligned), on
/// the left for numeric ones (right-aligned) — and closed by the separator.
pub open spec fn cell_spec(v: Seq<char>, col: Column, cap: Option<u16>, borders: bool) -> Seq<
    char,
> {
    let pl = print_length_spec(col, cap);
    let t = if v.len() > pl {
        v.take(pl)
    } else {
        v
    };
    let pad = pl - t.len();
    if col.kind == ColumnType::Textual {
        t + spaces(pad) + seq![sep_char(borders)]
    } else {
        spaces(pad) + t + seq![sep_char(borders)]
    }
}

/// One header cell: the column's name as plain text, never type-aware — cut
/// to the print length, left-aligned (padded on the right) whatever the
/// column's kind, and closed by the separator.
pub open spec fn name_cell_spec(col: Column, cap: Option<u16>, borders: bool) -> Seq<char> {
    let pl = print_length_spec(col, cap);
    let v = col.name@;
    let t = if v.len() > pl {
        v.take(pl)
    } else {
        v
    };
    let pad = pl - t.len();
    t + spaces(pad) + seq![sep_char(borders)]
}

/// The first `k` header cells.
pub open spec fn names_cells(cols: Seq<Column>, cap: Option<u16>, borders: bool, k: int) -> Seq<
    char,
>
    decreases k,
{
    if k <= 0 {
        Seq::empty()
    } else {
        names_cells(cols, cap, borders, k - 1) + name_cell_spec(cols[k - 1], cap, borders)
    }
}

/// The line of column names.
pub open spec fn header_line_spec(cols: Seq<Column>, cap: Option<u16>, borders: bool) -> Seq<
    char,
> {
    names_cells(cols, cap, borders, cols.len() as int) + seq!['\n']
}

/// The first `k` pieces of a horizontal rule: per column a run of horizontal
/// bars as wide as its print length, closed by a junction glyph.
pub open spec fn rule_cells(cols: Seq<Column>, cap: Option<u16>, k: int) -> Seq<char>
    decreases k,
{
    if k <= 0 {
        Seq::empty()
    } else {
        rule_cells(cols, cap, k - 1) + dashes(print_length_spec(cols[k - 1], cap)) + seq!['┼']
    }
}

/// One horizontal rule line.
pub open spec fn rule_line_spec(cols: Seq<Column>, cap: Option<u16>) -> Seq<char> {
    rule_cells(cols, cap, cols.len() as int) + seq!['\n']
}

/// The header block: the line of names, surrounded by a rule line above and
/// below when borders are on.
pub open spec fn header_block_spec(cols: Seq<Column>, cap: Option<u16>, borders: bool) -> Seq<
    char,
> {
    if borders {
        rule_line_spec(cols, cap) + header_line_spec(cols, cap, borders) + rule_line_spec(
            cols,
            cap,
        )
    } else {
        header_line_spec(cols, cap, borders)
    }
}

/// The first `k` cells of one data row.
pub open spec fn row_cells(
    cols: Seq<Column>,
    cap: Option<u16>,
    borders: bool,
    toks: Seq<Seq<char>>,
    k: int,
) -> Seq<char>
    decreases k,
{
    if k <= 0 {
        Seq::empty()
    } else {
        row_cells(cols, cap, borders, toks, k - 1) + cell_spec(toks[k - 1], cols[k - 1], cap, borders)
    }
}

/// One rendered data row: one cell per field that has a column — a short row
/// renders only its own fields, extra fields beyond the last column are
/// ignored — closed by a newline.
pub open spec fn row_line_spec(
    cols: Seq<Column>,
    cap: Option<u16>,
    borders: bool,
    toks: Seq<Seq<char>>,
) -> Seq<char> {
    let m = if toks.len() <= cols.len() {
        toks.len() as int
    } else {
        cols.len() as int
    };
    row_cells(cols, cap, borders, toks, m) + seq!['\n']
}

/// What row number `idx` (1-based) contributes to the output: its rendered
/// line, followed by the header block when `idx` is a multiple of the
/// header-repeat interval.
pub open spec fn row_block_spec(
    cols: Seq<Column>,
    repeat: Option<u16>,
    cap: Option<u16>,
    borders: bool,
    line: Seq<char>,
    idx: int,
) -> Seq<char> {
    row_line_spec(cols, cap, borders, parse_line_spec(line)) + if repeat is Some && idx % (
    repeat->0 as int) == 0 {
        header_block_spec(cols, cap, borders)
    } else {
        Seq::empty()
    }
}

/// The whole render pass over the data lines: the blocks of all rows, in
/// order.
pub open spec fn render_rows_spec(
    cols: Seq<Column>,
    repeat: Option<u16>,
    cap: Option<u16>,
    borders: bool,
    lines: Seq<Seq<char>>,
) -> Seq<char>
    decreases lines.len(),
{
    if lines.len() == 0 {
        Seq::empty()
    } else {
        render_rows_spec(cols, repeat, cap, borders, lines.drop_last()) + row_block_spec(
            cols,
            repeat,
            cap,
            borders,
            lines.last(),
            lines.len() as int,
        )
    }
}

/// Header rendering is not type-aware: a column's name renders the same
/// whatever type was inferred for the column's values.
pub proof fn lemma_header_cells_not_type_aware(
    c1: Column,
    c2: Column,
    cap: Option<u16>,
    borders: bool,
)
    requires
        c1.name == c2.name,
        c1.max_length == c2.max_length,
    ensures
        name_cell_spec(c1, cap, borders) == name_cell_spec(c2, cap, borders),
{
}

/// Every cell is exactly one character longer than its column's print
/// length — the print length of content plus the separator — whatever the
/// value, so cells of one column always line up.
pub proof fn lemma_cell_length(v: Seq<char>, col: Column, cap: Option<u16>, borders: bool)
    ensures
        cell_spec(v, col, cap, borders).len() == print_length_spec(col, cap) + 1,
{
}

/// Truncation: a value at least as long as the print length is cut to
/// exactly its first `print_length` characters before the separator; no
/// padding is inserted on either side.
pub proof fn lemma_truncation(v: Seq<char>, col: Column, cap: Option<u16>, borders: bool)
    requires
        v.len() >= print_length_spec(col, cap),
    ensures
        cell_spec(v, col, cap, borders) == v.take(print_length_spec(col, cap)) + seq![
            sep_char(borders),
        ],
{
    let pl = print_length_spec(col, cap);
    let t = if v.len() > pl {
        v.take(pl)
    } else {
        v
    };
    assert(t =~= v.take(pl));
    assert(t + spaces(0) + seq![sep_char(borders)] =~= t + seq![sep_char(borders)]);
    assert(spaces(0) + t + seq![sep_char(borders)] =~= t + seq![sep_char(borders)]);
}

/// The first `k` row cells depend only on the first `k` fields.
pub proof fn lemma_row_cells_prefix(
    cols: Seq<Column>,
    cap: Option<u16>,
    borders: bool,
    toks: Seq<Seq<char>>,
    cut: Seq<Seq<char>>,
    k: int,
)
    requires
        0 <= k <= toks.len(),
        k <= cut.len(),
        forall|i: int| 0 <= i < k ==> toks[i] == cut[i],
    ensures
        row_cells(cols, cap, borders, toks, k) == row_cells(cols, cap, borders, cut, k),
    decreases k,
{
    if k > 0 {
        lemma_row_cells_prefix(cols, cap, borders, toks, cut, k - 1);
    }
}

/// A row with more fields than columns renders as if the extra fields were
/// not there: they are skipped, never an error.
pub proof fn lemma_extra_fields_ignored(
    cols: Seq<Column>,
    cap: Option<u16>,
    borders: bool,
    toks: Seq<Seq<char>>,
)
    requires
        toks.len() >= cols.len(),
    ensures
        row_line_spec(cols, cap, borders, toks) == row_line_spec(
            cols,
            cap,
            borders,
            toks.take(cols.len() as int),
        ),
{
    lemma_row_cells_prefix(cols, cap, borders, toks, toks.take(cols.len() as int), cols.len() as int);
}

/// A row with fewer fields than columns renders exactly one cell per field
/// it has — the missing trailing cells are simply absent.
pub proof fn lemma_short_row_renders_own_fields(
    cols: Seq<Column>,
    cap: Option<u16>,
    borders: bool,
    toks: Seq<Seq<char>>,
)
    requires
        toks.len() <= cols.len(),
    ensures
        row_line_spec(cols, cap, borders, toks) == row_cells(
            cols,
            cap,
            borders,
            toks,
            toks.len() as int,
        ) + seq!['\n'],
{
}

/// Header repetition: with a repeat interval of `n`, the header block
/// follows exactly the rows whose 1-based number is a multiple of `n`, and
/// no others.
pub proof fn lemma_header_repetition(
    cols: Seq<Column>,
    cap: Option<u16>,
    borders: bool,
    line: Seq<char>,
    idx: int,
    n: u16,
)
    requires
        n > 0,
    ensures
        idx % (n as int) == 0 ==> row_block_spec(cols, Some(n), cap, borders, line, idx)
            == row_line_spec(cols, cap, borders, parse_line_spec(line)) + header_block_spec(
            cols,
            cap,
            borders,
        ),
        idx % (n as int) != 0 ==> row_block_spec(cols, Some(n), cap, borders, line, idx)
            == row_line_spec(cols, cap, borders, parse_line_spec(line)),
{
    let row = row_line_spec(cols, cap, borders, parse_line_spec(line));
    assert(row + Seq::<char>::empty() =~= row);
}

/// With header repetition disabled, every row contributes its line alone.
pub proof fn lemma_no_header_repetition(
    cols: Seq<Column>,
    cap: Option<u16>,
    borders: bool,
    line: Seq<char>,
    idx: int,
)
    ensures
        row_block_spec(cols, None, cap, borders, line, idx) == row_line_spec(
            cols,
            cap,
            borders,
            parse_line_spec(line),
        ),
{
    let row = row_line_spec(cols, cap, borders, parse_line_spec(line));
    assert(row + Seq::<char>::empty() =~= row);
}

/// Idempotence of the render pass: the output is a function of the analyzed
/// column model, the knobs and the data lines alone, so two full passes over
/// the same analyzed model and the same lines produce identical output.
pub proof fn lemma_render_idempotent(
    r1: Seq<char>,
    r2: Seq<char>,
    cols: Seq<Column>,
    repeat: Option<u16>,
    cap: Option<u16>,
    borders: bool,
    lines: Seq<Seq<char>>,
)
    requires
        r1 == render_rows_spec(cols, repeat, cap, borders, lines),
        r2 == render_rows_spec(cols, repeat, cap, borders, lines),
    ensures
        r1 == r2,
{
}

/// Appends `n` spaces.
fn push_spaces(out: &mut String, n: usize)
    ensures
        final(out)@ == old(out)@ + spaces(n as int),
{
    let mut i: usize = 0;
    proof {
        assert(out@ + spaces(0) =~= out@);
    }
    while i < n
        invariant
            i <= n,
            out@ == old(out)@ + spaces(i as int),
        decreases n - i,
    {
        out.append(" ");
        proof {
            reveal_strlit(" ");
            assert(old(out)@ + spaces(i as int) + " "@ =~= old(out)@ + spaces(i + 1));
        }
        i = i + 1;
    }
}

/// Appends `n` horizontal-bar glyphs.
fn push_dashes(out: &mut String, n: usize)
    ensures
        final(out)@ == old(out)@ + dashes(n as int),
{
    let mut i: usize = 0;
    proof {
        assert(out@ + dashes(0) =~= out@);
    }
    while i < n
        invariant
            i <= n,
            out@ == old(out)@ + dashes(i as int),
        decreases n - i,
    {
        out.append("─");
        proof {
            reveal_strlit("─");
            assert(old(out)@ + dashes(i as int) + "─"@ =~= old(out)@ + dashes(i + 1));
        }
        i = i + 1;
    }
}

impl DelimitedFile {
    /// The width a column is rendered at, per [`print_length_spec`]: the
    /// measured `max_length`, capped by `max_value_length` when one is
    /// configured.
    pub fn print_length(&self, col: &Column) -> (r: usize)
        ensures
            r as int == print_length_spec(*col, self.max_value_length),
    {
        match self.max_value_length {
            Some(length) => {
                let cap = length as usize;
                if col.max_length <= cap {
                    col.max_length
                } else {
                    cap
                }
            },
            None => col.max_length,
        }
    }

    /// Formats one field into its fixed-width cell, per [`cell_spec`].
    pub fn format_value(&self, value: &str, col: &Column) -> (r: String)
        ensures
            r@ == cell_spec(value@, *col, self.max_value_length, self.borders),
    {
        let pl = self.print_length(col);
        let n = value.unicode_len();
        let t: &str = if n > pl {
            value.substring_char(0, pl)
        } else {
            value
        };
        let pad: usize = if n > pl {
            0
        } else {
            pl - n
        };
        let mut out = String::new();
        match col.kind {
            ColumnType::Textual => {
                out.append(t);
                push_spaces(&mut out, pad);
            },
            ColumnType::Numeric => {
                push_spaces(&mut out, pad);
                out.append(t);
            },
        }
        if self.borders {
            out.append("│");
            proof {
                reveal_strlit("│");
            }
        } else {
            out.append(" ");
            proof {
                reveal_strlit(" ");
            }
        }
        proof {
            assert(out@ =~= cell_spec(value@, *col, self.max_value_length, self.borders));
        }
        out
    }

    /// Formats one column's name into its header cell, per
    /// [`name_cell_spec`]: plain text, left-aligned whatever the column's
    /// inferred type.
    fn format_name(&self, col: &Column) -> (r: String)
        ensures
            r@ == name_cell_spec(*col, self.max_value_length, self.borders),
    {
        let pl = self.print_length(col);
        let value = col.name.as_str();
        let n = value.unicode_len();
        let t: &str = if n > pl {
            value.substring_char(0, pl)
        } else {
            value
        };
        let pad: usize = if n > pl {
            0
        } else {
            pl - n
        };
        let mut out = String::new();
        out.append(t);
        push_spaces(&mut out, pad);
        if self.borders {
            out.append("│");
            proof {
                reveal_strlit("│");
            }
        } else {
            out.append(" ");
            proof {
                reveal_strlit(" ");
            }
        }
        proof {
            assert(out@ =~= name_cell_spec(*col, self.max_value_length, self.borders));
        }
        out
    }

    /// The header block, per [`header_block_spec`]: the column names as one
    /// line of plain-text cells, with a horizontal rule above and below when
    /// borders are on.
    pub fn print_aligned_header(&self) -> (r: String)
        ensures
            r@ == header_block_spec(self.cols@, self.max_value_length, self.borders),
    {
        let mut out = String::new();
        if self.borders {
            self.append_rule_line(&mut out);
        }
        let mut i: usize = 0;
        let ghost mid = out@;
        while i < self.cols.len()
            invariant
                i <= self.cols@.len(),
                out@ == mid + names_cells(
                    self.cols@,
                    self.max_value_length,
                    self.borders,
                    i as int,
                ),
            decreases self.cols@.len() - i,
        {
            let cell = self.format_name(&self.cols[i]);
            out.append(cell.as_str());
            proof {
                assert(out@ =~= mid + names_cells(
                    self.cols@,
                    self.max_value_length,
                    self.borders,
                    i + 1,
                ));
            }
            i = i + 1;
        }
        out.append("\n");
        proof {
            reveal_strlit("\n");
            assert(out@ =~= mid + header_line_spec(self.cols@, self.max_value_length, self.borders));
        }
        if self.borders {
            self.append_rule_line(&mut out);
        }
        proof {
            assert(out@ =~= header_block_spec(self.cols@, self.max_value_length, self.borders));
        }
        out
    }

    /// Appends one horizontal rule line, per [`rule_line_spec`].
    fn append_rule_line(&self, out: &mut String)
        ensures
            final(out)@ == old(out)@ + rule_line_spec(self.cols@, self.max_value_length),
    {
        let mut i: usize = 0;
        proof {
            assert(out@ + rule_cells(self.cols@, self.max_value_length, 0) =~= out@);
        }
        while i < self.cols.len()
            invariant
                i <= self.cols@.len(),
                out@ == old(out)@ + rule_cells(self.cols@, self.max_value_length, i as int),
            decreases self.cols@.len() - i,
        {
            let pl = self.print_length(&self.cols[i]);
            push_dashes(out, pl);
            out.append("┼");
            proof {
                reveal_strlit("┼");
                assert(out@ =~= old(out)@ + rule_cells(
                    self.cols@,
                    self.max_value_length,
                    i + 1,
                ));
            }
            i = i + 1;
        }
        out.append("\n");
        proof {
            reveal_strlit("\n");
            assert(out@ =~= old(out)@ + rule_line_spec(self.cols@, self.max_value_length));
        }
    }

    /// The render pass, per [`render_rows_spec`]: every data line formatted
    /// as a row of cells — short rows render only their own fields, extra
    /// fields are skipped — with the header block re-emitted after every row
    /// whose 1-based number is a multiple of the header-repeat interval.
    pub fn print_aligned_rows(&self, lines: &Vec<String>) -> (r: String)
        requires
            self.header_repeat is Some ==> self.header_repeat->0 > 0,
        ensures
            r@ == render_rows_spec(
                self.cols@,
                self.header_repeat,
                self.max_value_length,
                self.borders,
                lines.deep_view(),
            ),
    {
        let ghost lv = lines.deep_view();
        let mut out = String::new();
        let mut ln: usize = 0;
        proof {
            assert(lv.take(0) =~= Seq::<Seq<char>>::empty());
        }
        while ln < lines.len()
            invariant
                ln <= lines@.len(),
                lv == lines.deep_view(),
                self.header_repeat is Some ==> self.header_repeat->0 > 0,
                out@ == render_rows_spec(
                    self.cols@,
                    self.header_repeat,
                    self.max_value_length,
                    self.borders,
                    lv.take(ln as int),
                ),
            decreases lines@.len() - ln,
        {
            let toks = DelimitedFile::line_parse(lines[ln].as_str());
            let ghost tv = toks.deep_view();
            let ghost out0 = out@;
            proof {
                assert(lines@[ln as int].deep_view() == lv[ln as int]);
            }
            let m = if toks.len() <= self.cols.len() {
                toks.len()
            } else {
                self.cols.len()
            };
            let mut k: usize = 0;
            proof {
                assert(out@ + row_cells(self.cols@, self.max_value_length, self.borders, tv, 0)
                    =~= out@);
            }
            while k < m
                invariant
                    k <= m,
                    m <= toks@.len(),
                    m <= self.cols@.len(),
                    tv == toks.deep_view(),
                    out@ == out0 + row_cells(
                        self.cols@,
                        self.max_value_length,
                        self.borders,
                        tv,
                        k as int,
                    ),
                decreases m - k,
            {
                let cell = self.format_value(toks[k].as_str(), &self.cols[k]);
                out.append(cell.as_str());
                proof {
                    assert(toks@[k as int].deep_view() == tv[k as int]);
                    assert(out@ =~= out0 + row_cells(
                        self.cols@,
                        self.max_value_length,
                        self.borders,
                        tv,
                        k + 1,
                    ));
                }
                k = k + 1;
            }
            out.append("\n");
            proof {
                reveal_strlit("\n");
                assert(out@ =~= out0 + row_line_spec(
                    self.cols@,
                    self.max_value_length,
                    self.borders,
                    tv,
                ));
            }
            if let Some(hr) = self.header_repeat {
                if (ln + 1) % (hr as usize) == 0 {
                    let h = self.print_aligned_header();
                    out.append(h.as_str());
                }
            }
            proof {
                let step = lv.take(ln + 1);
                assert(step.drop_last() =~= lv.take(ln as int));
                assert(step.last() == lv[ln as int]);
                assert(parse_line_spec(lv[ln as int]) == tv);
                assert(out@ =~= out0 + row_block_spec(
                    self.cols@,
                    self.header_repeat,
                    self.max_value_length,
                    self.borders,
                    lv[ln as int],
                    ln + 1,
                ));
            }
            ln = ln + 1;
        }
        proof {
            assert(lv.take(lines@.len() as int) =~= lv);
        }
        out
    }
}

} // verus!
