//! The error kinds of the compiler. Parsing and validation never panic: every
//! failure is a tagged value carrying the offending input and, where it
//! applies, the attempted cell type.

use vstd::prelude::*;

use crate::excel_define::CellType;

verus! {

/// A failure of cell conversion, schema building or emission.
#[derive(Debug, Clone, PartialEq, Eq)]
pub enum ConfigError {
    /// A cell-type label that resolves to no cell type.
    UnknownCellType(String),
    /// A visibility-tag label that resolves to no tag.
    UnknownVisibilityTag(String),
    /// A header cell (row, column) that was not a plain string.
    ExpectedString(usize, usize),
    /// A scalar that does not match the grammar of the attempted kind.
    MalformedScalar(CellType, String),
    /// A boolean cell that is none of the accepted literals.
    MalformedBool(String),
    /// A tuple with the wrong component count: expected, got, raw text.
    ArityMismatch(usize, usize, String),
    /// A row whose cell count differs from the schema: expected, got.
    RowArityMismatch(usize, usize),
    /// A table that designates no primary key column; carries the table name.
    MissingPrimaryKey(String),
    /// A kind whose grammar is not specified yet.
    Unimplemented(CellType),
}

/// The mathematical shape of a [`ConfigError`], with strings as character
/// sequences, for use in specifications.
pub enum ErrorView {
    UnknownCellType(Seq<char>),
    UnknownVisibilityTag(Seq<char>),
    ExpectedString(int, int),
    MalformedScalar(CellType, Seq<char>),
    MalformedBool(Seq<char>),
    ArityMismatch(int, int, Seq<char>),
    RowArityMismatch(int, int),
    MissingPrimaryKey(Seq<char>),
    Unimplemented(CellType),
}

impl View for ConfigError {
    type V = ErrorView;

    open spec fn view(&self) -> ErrorView {
        match self {
            ConfigError::UnknownCellType(s) => ErrorView::UnknownCellType(s@),
            ConfigError::UnknownVisibilityTag(s) => ErrorView::UnknownVisibilityTag(s@),
            ConfigError::ExpectedString(r, c) => ErrorView::ExpectedString(*r as int, *c as int),
            ConfigError::MalformedScalar(t, s) => ErrorView::MalformedScalar(*t, s@),
            ConfigError::MalformedBool(s) => ErrorView::MalformedBool(s@),
            ConfigError::ArityMismatch(e, g, s) => ErrorView::ArityMismatch(
                *e as int,
                *g as int,
                s@,
            ),
            ConfigError::RowArityMismatch(e, g) => ErrorView::RowArityMismatch(
                *e as int,
                *g as int,
            ),
            ConfigError::MissingPrimaryKey(s) => ErrorView::MissingPrimaryKey(s@),
            ConfigError::Unimplemented(t) => ErrorView::Unimplemented(*t),
        }
    }
}

impl DeepView for ConfigError {
    type V = ErrorView;

    open spec fn deep_view(&self) -> ErrorView {
        self.view()
    }
}

/// Relates an executable result to its specification: the same branch, with
/// the payloads abstracted to their views.
pub open spec fn res_matches<T: DeepView>(
    r: Result<T, ConfigError>,
    m: Result<T::V, ErrorView>,
) -> bool {
    match r {
        Ok(v) => m == Ok::<T::V, ErrorView>(v.deep_view()),
        Err(e) => m == Err::<T::V, ErrorView>(e@),
    }
}

} // verus!
