//! The analysis pass over a delimiter-separated file: the header line seeds
//! one column per field, and every data line then widens and retypes the
//! columns it has values for.

use vstd::prelude::*;
use vstd::string::StringSliceAdditionalSpecFns;
use crate::column::Column;
use crate::column::ColumnType;
use crate::column::kind_after;
use crate::column::kind_fold;
use crate::column::length_after;
use crate::column::length_fold;
use crate::text::lemma_parse_line_trimmed;
use crate::text::parse_line_spec;
use crate::text::split_line;
use crate::text::trimmed;

verus! {

/// The column statistics and rendering knobs for one delimiter-separated
/// file: built empty, seeded by [`DelimitedFile::read_headers`], folded over
/// every data line by [`DelimitedFile::analyze_rows`], and read by the
/// rendering pass.
pub struct DelimitedFile {
    /// One column per header field, in order.
    pub cols: Vec<Column>,
    /// How many bytes the header line occupied, so that a caller can seek
    /// its stream back to where the data starts.
    pub header_bytes: usize,
    /// Re-emit the header block after every N data rows; `None` disables it.
    pub header_repeat: Option<u16>,
    /// Cap on the displayed cell width; `None` renders full column width.
    pub max_value_length: Option<u16>,
    /// Draw rule lines and cell-separator glyphs.
    pub borders: bool,
}

/// The fields that column `i` observes over `lines`, in order: for each line
/// that has a field at position `i`, that field.
pub open spec fn observed(lines: Seq<Seq<char>>, i: int) -> Seq<Seq<char>>
    decreases lines.len(),
{
    if lines.len() == 0 {
        Seq::empty()
    } else {
        let prev = observed(lines.drop_last(), i);
        let toks = parse_line_spec(lines.last());
        if i < toks.len() {
            prev.push(toks[i])
        } else {
            prev
        }
    }
}

/// What a column observes over concatenated line runs is the concatenation
/// of what it observes over each run.
pub proof fn lemma_observed_append(a: Seq<Seq<char>>, b: Seq<Seq<char>>, c: int)
    ensures
        observed(a + b, c) == observed(a, c) + observed(b, c),
    decreases b.len(),
{
    if b.len() == 0 {
        assert(a + b =~= a);
        assert(observed(a, c) + observed(b, c) =~= observed(a, c));
    } else {
        lemma_observed_append(a, b.drop_last(), c);
        assert((a + b).drop_last() =~= a + b.drop_last());
        assert((a + b).last() == b.last());
        let toks = parse_line_spec(b.last());
        if c < toks.len() {
            assert(observed(a, c) + observed(b.drop_last(), c).push(toks[c]) =~= (observed(a, c)
                + observed(b.drop_last(), c)).push(toks[c]));
        }
    }
}

/// After the analysis pass a column is at least as wide as it started — the
/// length of its header name — and as every field value observed at its
/// position in any line.
pub proof fn lemma_analyzed_width_covers(m: int, lines: Seq<Seq<char>>, c: int)
    ensures
        length_fold(m, observed(lines, c)) >= m,
        forall|r: int|
            0 <= r < lines.len() && c < parse_line_spec(#[trigger] lines[r]).len() ==> length_fold(
                m,
                observed(lines, c),
            ) >= parse_line_spec(lines[r])[c].len(),
    decreases lines.len(),
{
    if lines.len() > 0 {
        lemma_analyzed_width_covers(m, lines.drop_last(), c);
        let prev = observed(lines.drop_last(), c);
        let toks = parse_line_spec(lines.last());
        if c < toks.len() {
            assert(observed(lines, c) == prev.push(toks[c]));
            assert(prev.push(toks[c]).drop_last() =~= prev);
            assert(prev.push(toks[c]).last() == toks[c]);
            assert(length_fold(m, observed(lines, c)) == length_after(
                length_fold(m, prev),
                toks[c],
            ));
        } else {
            assert(observed(lines, c) == prev);
        }
        assert forall|r: int|
            0 <= r < lines.len() && c < parse_line_spec(#[trigger] lines[r]).len() implies length_fold(
            m,
            observed(lines, c),
        ) >= parse_line_spec(lines[r])[c].len() by {
            if r < lines.len() - 1 {
                assert(lines[r] == lines.drop_last()[r]);
            } else {
                assert(lines[r] == lines.last());
            }
        }
    }
}

/// Once the lines seen so far have made a column `Textual`, the rest of the
/// analysis pass cannot restore it to `Numeric`.
pub proof fn lemma_textual_column_stays_textual(
    k: ColumnType,
    lines: Seq<Seq<char>>,
    r: int,
    c: int,
)
    requires
        0 <= r <= lines.len(),
        kind_fold(k, observed(lines.take(r), c)) == ColumnType::Textual,
    ensures
        kind_fold(k, observed(lines, c)) == ColumnType::Textual,
{
    assert(lines =~= lines.take(r) + lines.skip(r));
    lemma_observed_append(lines.take(r), lines.skip(r), c);
    crate::column::lemma_textual_is_permanent(
        k,
        observed(lines.take(r), c),
        observed(lines.skip(r), c),
    );
}

impl DelimitedFile {
    /// An empty model: no columns yet, all rendering knobs off.
    pub fn new() -> (d: DelimitedFile)
        ensures
            d.cols@.len() == 0,
            d.header_bytes == 0,
            d.header_repeat is None,
            d.max_value_length is None,
            d.borders == false,
    {
        DelimitedFile {
            cols: Vec::new(),
            header_bytes: 0,
            header_repeat: None,
            max_value_length: None,
            borders: false,
        }
    }

    pub fn set_header_repeat(&mut self, header_repeat: Option<u16>)
        ensures
            final(self).header_repeat == header_repeat,
            final(self).cols == old(self).cols,
            final(self).header_bytes == old(self).header_bytes,
            final(self).max_value_length == old(self).max_value_length,
            final(self).borders == old(self).borders,
    {
        self.header_repeat = header_repeat;
    }

    pub fn set_max_value_length(&mut self, max_value_length: Option<u16>)
        ensures
            final(self).max_value_length == max_value_length,
            final(self).cols == old(self).cols,
            final(self).header_bytes == old(self).header_bytes,
            final(self).header_repeat == old(self).header_repeat,
            final(self).borders == old(self).borders,
    {
        self.max_value_length = max_value_length;
    }

    pub fn set_borders(&mut self, borders: bool)
        ensures
            final(self).borders == borders,
            final(self).cols == old(self).cols,
            final(self).header_bytes == old(self).header_bytes,
            final(self).header_repeat == old(self).header_repeat,
            final(self).max_value_length == old(self).max_value_length,
    {
        self.borders = borders;
    }

    /// Splits one line into its trimmed fields.
    pub fn line_parse(l: &str) -> (r: Vec<String>)
        ensures
            r.deep_view() == parse_line_spec(l@),
    {
        split_line(l)
    }

    /// Seeds the column model from the header line: one fresh `Numeric`
    /// column per field, named by the trimmed field and as wide as it, and
    /// records how many bytes the header occupied. An empty header (an empty
    /// file) yields an empty model.
    pub fn read_headers(&mut self, header: &str)
        ensures
            final(self).header_repeat == old(self).header_repeat,
            final(self).max_value_length == old(self).max_value_length,
            final(self).borders == old(self).borders,
            header@.len() == 0 ==> final(self).cols@.len() == 0 && final(self).header_bytes == 0,
            header@.len() > 0 ==> {
                &&& final(self).cols@.len() == parse_line_spec(header@).len()
                &&& forall|i: int|
                    0 <= i < final(self).cols@.len() ==> {
                        &&& (#[trigger] final(self).cols@[i]).name@ == parse_line_spec(header@)[i]
                        &&& final(self).cols@[i].kind == ColumnType::Numeric
                        &&& final(self).cols@[i].max_length == parse_line_spec(header@)[i].len()
                    }
                &&& final(self).header_bytes == header.spec_bytes().len() as usize
            },
    {
        if header.is_empty() {
            self.cols = Vec::new();
            self.header_bytes = 0;
            return;
        }
        self.header_bytes = header.len();
        let toks = Self::line_parse(header);
        let ghost tv = parse_line_spec(header@);
        let mut cols: Vec<Column> = Vec::new();
        let mut i: usize = 0;
        while i < toks.len()
            invariant
                i <= toks.len(),
                tv == parse_line_spec(header@),
                toks.deep_view() == tv,
                cols@.len() == i,
                forall|k: int|
                    0 <= k < i ==> {
                        &&& (#[trigger] cols@[k]).name@ == tv[k]
                        &&& cols@[k].kind == ColumnType::Numeric
                        &&& cols@[k].max_length == tv[k].len()
                    },
            decreases toks.len() - i,
        {
            let c = Column::new(toks[i].as_str());
            proof {
                lemma_parse_line_trimmed(header@);
                assert(tv.len() == toks@.len());
                assert(i < parse_line_spec(header@).len());
                assert(toks.deep_view()[i as int] == toks@[i as int].deep_view());
                assert(toks@[i as int]@ == tv[i as int]);
                assert(trimmed(parse_line_spec(header@)[i as int]) == parse_line_spec(header@)[
                    i as int
                ]);
                assert(c.name@ == tv[i as int]);
                assert(c.max_length == tv[i as int].len());
            }
            cols.push(c);
            i = i + 1;
        }
        self.cols = cols;
    }

    /// The analysis pass: folds every data line into the column model. Each
    /// column's type and width become the fold of what it observed; names and
    /// everything else are untouched. Fields beyond the header's column count
    /// are ignored.
    pub fn analyze_rows(&mut self, lines: &Vec<String>)
        ensures
            final(self).cols@.len() == old(self).cols@.len(),
            forall|c: int|
                0 <= c < old(self).cols@.len() ==> {
                    &&& (#[trigger] final(self).cols@[c]).name == old(self).cols@[c].name
                    &&& final(self).cols@[c].kind == kind_fold(
                        old(self).cols@[c].kind,
                        observed(lines.deep_view(), c),
                    )
                    &&& final(self).cols@[c].max_length == length_fold(
                        old(self).cols@[c].max_length as int,
                        observed(lines.deep_view(), c),
                    )
                },
            final(self).header_bytes == old(self).header_bytes,
            final(self).header_repeat == old(self).header_repeat,
            final(self).max_value_length == old(self).max_value_length,
            final(self).borders == old(self).borders,
    {
        let ghost lv = lines.deep_view();
        let ghost cols0 = self.cols@;
        let mut r: usize = 0;
        while r < lines.len()
            invariant
                r <= lines.len(),
                lv == lines.deep_view(),
                cols0 == old(self).cols@,
                self.cols@.len() == cols0.len(),
                forall|c: int|
                    0 <= c < cols0.len() ==> {
                        &&& (#[trigger] self.cols@[c]).name == cols0[c].name
                        &&& self.cols@[c].kind == kind_fold(
                            cols0[c].kind,
                            observed(lv.take(r as int), c),
                        )
                        &&& self.cols@[c].max_length == length_fold(
                            cols0[c].max_length as int,
                            observed(lv.take(r as int), c),
                        )
                    },
                self.header_bytes == old(self).header_bytes,
                self.header_repeat == old(self).header_repeat,
                self.max_value_length == old(self).max_value_length,
                self.borders == old(self).borders,
            decreases lines.len() - r,
        {
            let toks = Self::line_parse(lines[r].as_str());
            let ghost pre = self.cols@;
            let ghost tv = toks.deep_view();
            proof {
                assert(lines@[r as int].deep_view() == lv[r as int]);
            }
            let mut k: usize = 0;
            while k < toks.len()
                invariant
                    k <= toks.len(),
                    tv == toks.deep_view(),
                    self.cols@.len() == pre.len(),
                    forall|c: int|
                        0 <= c < pre.len() ==> {
                            &&& (#[trigger] self.cols@[c]).name == pre[c].name
                            &&& (c < k ==> self.cols@[c].kind == kind_after(pre[c].kind, tv[c])
                                && self.cols@[c].max_length == length_after(
                                pre[c].max_length as int,
                                tv[c],
                            ))
                            &&& (c >= k ==> self.cols@[c] == pre[c])
                        },
                    self.header_bytes == old(self).header_bytes,
                    self.header_repeat == old(self).header_repeat,
                    self.max_value_length == old(self).max_value_length,
                    self.borders == old(self).borders,
                decreases toks.len() - k,
            {
                if k < self.cols.len() {
                    self.cols[k].update(toks[k].as_str());
                }
                k = k + 1;
            }
            proof {
                let prefix = lv.take(r as int);
                let step = lv.take(r + 1);
                assert(step.drop_last() =~= prefix);
                assert(step.last() == lv[r as int]);
                assert(parse_line_spec(lv[r as int]) == tv);
                assert forall|c: int| 0 <= c < cols0.len() implies {
                    &&& (#[trigger] self.cols@[c]).kind == kind_fold(
                        cols0[c].kind,
                        observed(step, c),
                    )
                    &&& self.cols@[c].max_length == length_fold(
                        cols0[c].max_length as int,
                        observed(step, c),
                    )
                } by {
                    if c < tv.len() {
                        assert(observed(step, c) == observed(prefix, c).push(tv[c]));
                        assert(observed(step, c).drop_last() =~= observed(prefix, c));
                        assert(observed(step, c).last() == tv[c]);
                    } else {
                        assert(observed(step, c) == observed(prefix, c));
                    }
                }
            }
            r = r + 1;
        }
        proof {
            assert(lv.take(lines@.len() as int) =~= lv);
        }
    }
}

} // verus!
