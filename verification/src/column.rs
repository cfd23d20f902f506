//! The column model: per column a name, an inferred type and the widest
//! observed field length.

use vstd::prelude::*;
use crate::numeric::is_numeric;
use crate::numeric::is_numeric_str;
use crate::numeric::lemma_empty_not_numeric;
use crate::text::trim_str;
use crate::text::trimmed;

verus! {

/// The inferred type of a column. A column starts as `Numeric`, the
/// optimistic guess, and flips permanently to `Textual` on the first field
/// that does not parse as a number.
#[derive(Debug, Clone, Copy, PartialEq, Eq, Structural)]
pub enum ColumnType {
    Textual,
    Numeric,
}

/// One vertical slice of the table: the trimmed header text at this position,
/// the evolving inferred type, and the widest field length seen so far
/// (headers included), in characters.
#[derive(Debug)]
pub struct Column {
    pub name: String,
    pub kind: ColumnType,
    pub max_length: usize,
}

/// The type a column of kind `k` has after it observes the field `v`:
/// `Textual` is absorbing, and a `Numeric` column stays numeric only while
/// every field parses as a number.
pub open spec fn kind_after(k: ColumnType, v: Seq<char>) -> ColumnType {
    if k == ColumnType::Textual {
        ColumnType::Textual
    } else if is_numeric(v) {
        ColumnType::Numeric
    } else {
        ColumnType::Textual
    }
}

/// The widest length after a column of width `m` observes the field `v`.
pub open spec fn length_after(m: int, v: Seq<char>) -> int {
    if v.len() > m {
        v.len() as int
    } else {
        m
    }
}

/// The type a column of kind `k` has after it observes `vals` in order.
pub open spec fn kind_fold(k: ColumnType, vals: Seq<Seq<char>>) -> ColumnType
    decreases vals.len(),
{
    if vals.len() == 0 {
        k
    } else {
        kind_after(kind_fold(k, vals.drop_last()), vals.last())
    }
}

/// The widest length after a column of width `m` observes `vals` in order.
pub open spec fn length_fold(m: int, vals: Seq<Seq<char>>) -> int
    decreases vals.len(),
{
    if vals.len() == 0 {
        m
    } else {
        length_after(length_fold(m, vals.drop_last()), vals.last())
    }
}

/// After analysis a column is at least as wide as its starting width (the
/// header name) and as every field observed at its position.
pub proof fn lemma_max_length_dominates(m: int, vals: Seq<Seq<char>>)
    ensures
        length_fold(m, vals) >= m,
        forall|j: int| 0 <= j < vals.len() ==> length_fold(m, vals) >= #[trigger] vals[j].len(),
    decreases vals.len(),
{
    if vals.len() > 0 {
        lemma_max_length_dominates(m, vals.drop_last());
        assert forall|j: int| 0 <= j < vals.len() implies length_fold(m, vals)
            >= #[trigger] vals[j].len() by {
            if j < vals.len() - 1 {
                assert(vals[j] == vals.drop_last()[j]);
                assert(length_fold(m, vals.drop_last()) >= vals.drop_last()[j].len());
            }
        }
    }
}

pub proof fn lemma_kind_fold_append(k: ColumnType, a: Seq<Seq<char>>, b: Seq<Seq<char>>)
    ensures
        kind_fold(k, a + b) == kind_fold(kind_fold(k, a), b),
    decreases b.len(),
{
    if b.len() == 0 {
        assert(a + b =~= a);
    } else {
        lemma_kind_fold_append(k, a, b.drop_last());
        assert((a + b).drop_last() =~= a + b.drop_last());
        assert((a + b).last() == b.last());
    }
}

/// Type inference is one-way: once the observed fields have made a column
/// `Textual`, no later fields can restore it to `Numeric`.
pub proof fn lemma_textual_is_permanent(k: ColumnType, a: Seq<Seq<char>>, b: Seq<Seq<char>>)
    requires
        kind_fold(k, a) == ColumnType::Textual,
    ensures
        kind_fold(k, a + b) == ColumnType::Textual,
    decreases b.len(),
{
    lemma_kind_fold_append(k, a, b);
    lemma_kind_fold_textual(kind_fold(k, a), b);
}

/// A `Textual` column stays `Textual` whatever it observes.
pub proof fn lemma_kind_fold_textual(k: ColumnType, vals: Seq<Seq<char>>)
    requires
        k == ColumnType::Textual,
    ensures
        kind_fold(k, vals) == ColumnType::Textual,
    decreases vals.len(),
{
    if vals.len() > 0 {
        lemma_kind_fold_textual(k, vals.drop_last());
    }
}

/// An empty field value always forces its column to `Textual`, whatever the
/// column held before: the empty string does not parse as a number.
pub proof fn lemma_empty_field_forces_textual(k: ColumnType)
    ensures
        kind_after(k, Seq::<char>::empty()) == ColumnType::Textual,
{
    lemma_empty_not_numeric();
}

impl Column {
    /// A fresh column seeded from its header text: the name is the trimmed
    /// header, the type starts `Numeric`, and the width starts at the name's
    /// length.
    pub fn new(name: &str) -> (c: Column)
        ensures
            c.name@ == trimmed(name@),
            c.kind == ColumnType::Numeric,
            c.max_length == trimmed(name@).len(),
    {
        let t = trim_str(name);
        let len = t.unicode_len();
        Column { name: t.to_owned(), kind: ColumnType::Numeric, max_length: len }
    }

    /// Absorbs one observed field: the width grows to cover it and the type
    /// follows the one-way inference rule of [`kind_after`].
    pub fn update(&mut self, value: &str)
        ensures
            final(self).name == old(self).name,
            final(self).max_length == length_after(old(self).max_length as int, value@),
            final(self).kind == kind_after(old(self).kind, value@),
    {
        let len = value.unicode_len();
        if len > self.max_length {
            self.max_length = len;
        }
        match self.kind {
            ColumnType::Textual => {},
            ColumnType::Numeric => {
                if !is_numeric_str(value) {
                    self.kind = ColumnType::Textual;
                }
            },
        }
    }
}

} // verus!
