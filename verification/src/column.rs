//! Column types.
//!
//! Floating-point samples are carried as IEEE-754 `binary64` bit patterns
//! (`f64::to_bits`); the columnar logic never computes on them.
use vstd::prelude::*;
use crate::types::{Diagnostic, DiagnosticCode, cat3};

verus! {

/// A numeric column: a name and `f64` samples as bit patterns (`NaN` marks a missing value).
#[derive(Debug)]
pub struct FloatColumn {
    /// Column name.
    pub name: String,
    /// Samples, each the `to_bits` of an `f64`.
    pub values: Vec<u64>,
}

impl FloatColumn {
    /// Builds a column from a name and samples.
    pub fn new(name: &str, values: Vec<u64>) -> (c: FloatColumn)
        ensures
            c.name@ == name@,
            c.values@ == values@,
    {
        proof { broadcast use vstd::string::to_string_from_display_ensures_for_str; }
        FloatColumn { name: name.to_string(), values }
    }

    /// Number of rows.
    pub fn len(&self) -> (n: usize)
        ensures
            n == self.values@.len(),
    {
        self.values.len()
    }

    /// Whether the column has no rows.
    pub fn is_empty(&self) -> (b: bool)
        ensures
            b == (self.values@.len() == 0),
    {
        self.values.len() == 0
    }
}

/// A text column (labels or categories).
#[derive(Debug)]
pub struct StringColumn {
    /// Column name.
    pub name: String,
    /// Text values.
    pub values: Vec<String>,
}

/// The character sequences held by a vector of strings.
pub open spec fn strings_view(v: Seq<String>) -> Seq<Seq<char>> {
    v.map_values(|s: String| s@)
}

impl StringColumn {
    /// Builds a column from a name and text values.
    pub fn new(name: &str, values: Vec<String>) -> (c: StringColumn)
        ensures
            c.name@ == name@,
            c.values@ == values@,
    {
        proof { broadcast use vstd::string::to_string_from_display_ensures_for_str; }
        StringColumn { name: name.to_string(), values }
    }

    /// Number of rows.
    pub fn len(&self) -> (n: usize)
        ensures
            n == self.values@.len(),
    {
        self.values.len()
    }

    /// Whether the column has no rows.
    pub fn is_empty(&self) -> (b: bool)
        ensures
            b == (self.values@.len() == 0),
    {
        self.values.len() == 0
    }
}

/// A column of either kind.
#[derive(Debug)]
pub enum Column {
    /// Numeric column.
    Float(FloatColumn),
    /// Text column.
    String(StringColumn),
}

impl From<FloatColumn> for Column {
    fn from(c: FloatColumn) -> (r: Column) {
        Column::Float(c)
    }
}

impl vstd::std_specs::convert::FromSpecImpl<FloatColumn> for Column {
    open spec fn obeys_from_spec() -> bool {
        true
    }

    open spec fn from_spec(v: FloatColumn) -> Column {
        Column::Float(v)
    }
}

impl From<StringColumn> for Column {
    fn from(c: StringColumn) -> (r: Column) {
        Column::String(c)
    }
}

impl vstd::std_specs::convert::FromSpecImpl<StringColumn> for Column {
    open spec fn obeys_from_spec() -> bool {
        true
    }

    open spec fn from_spec(v: StringColumn) -> Column {
        Column::String(v)
    }
}

/// The abstract content of a column: its kind, name and values.
pub enum ColumnView {
    /// A numeric column.
    Float { name: Seq<char>, values: Seq<u64> },
    /// A text column.
    Text { name: Seq<char>, values: Seq<String> },
}

impl ColumnView {
    /// The column's name.
    pub open spec fn name(self) -> Seq<char> {
        match self {
            ColumnView::Float { name, .. } => name,
            ColumnView::Text { name, .. } => name,
        }
    }

    /// The column's number of rows.
    pub open spec fn len(self) -> nat {
        match self {
            ColumnView::Float { values, .. } => values.len(),
            ColumnView::Text { values, .. } => values.len(),
        }
    }
}

impl View for Column {
    type V = ColumnView;

    open spec fn view(&self) -> ColumnView {
        match self {
            Column::Float(c) => ColumnView::Float { name: c.name@, values: c.values@ },
            Column::String(c) => ColumnView::Text { name: c.name@, values: c.values@ },
        }
    }
}

impl Column {
    /// The column's name.
    pub open spec fn spec_name(&self) -> Seq<char> {
        self@.name()
    }

    /// The column's number of rows.
    pub open spec fn spec_len(&self) -> nat {
        self@.len()
    }

    /// The column's name.
    pub fn name(&self) -> (s: &str)
        ensures
            s@ == self.spec_name(),
    {
        match self {
            Column::Float(c) => c.name.as_str(),
            Column::String(c) => c.name.as_str(),
        }
    }

    /// Number of rows.
    pub fn len(&self) -> (n: usize)
        ensures
            n == self.spec_len(),
    {
        match self {
            Column::Float(c) => c.len(),
            Column::String(c) => c.len(),
        }
    }

    /// Whether the column has no rows.
    pub fn is_empty(&self) -> (b: bool)
        ensures
            b == (self.spec_len() == 0),
    {
        self.len() == 0
    }

    /// The numeric view; fails on a text column.
    pub fn as_float(&self) -> (r: Result<&FloatColumn, Diagnostic>)
        ensures
            match r {
                Ok(c) => self@ == (ColumnView::Float { name: c.name@, values: c.values@ }),
                Err(d) => self is String && d.matches(
                    DiagnosticCode::ValidationFailed,
                    "列 `"@ + self.spec_name() + "` 不是浮点列"@,
                    seq![("column"@, self.spec_name())],
                ),
            },
    {
        match self {
            Column::Float(c) => Ok(c),
            Column::String(_) => {
                let name = self.name();
                proof { broadcast use vstd::string::to_string_from_display_ensures_for_str; }
                Err(Diagnostic::error(DiagnosticCode::ValidationFailed, cat3("列 `", name, "` 不是浮点列"))
                    .with_param("column", name.to_string()))
            }
        }
    }

    /// The text view; fails on a numeric column.
    pub fn as_string(&self) -> (r: Result<&StringColumn, Diagnostic>)
        ensures
            match r {
                Ok(c) => self@ == (ColumnView::Text { name: c.name@, values: c.values@ }),
                Err(d) => self is Float && d.matches(
                    DiagnosticCode::ValidationFailed,
                    "列 `"@ + self.spec_name() + "` 不是字符串列"@,
                    seq![("column"@, self.spec_name())],
                ),
            },
    {
        match self {
            Column::String(c) => Ok(c),
            Column::Float(_) => {
                let name = self.name();
                proof { broadcast use vstd::string::to_string_from_display_ensures_for_str; }
                Err(Diagnostic::error(DiagnosticCode::ValidationFailed, cat3("列 `", name, "` 不是字符串列"))
                    .with_param("column", name.to_string()))
            }
        }
    }
}

impl Clone for FloatColumn {
    fn clone(&self) -> (c: Self)
        ensures
            c.name@ == self.name@,
            c.values@ == self.values@,
    {
        let values = self.values.clone();
        assert(values@ =~= self.values@);
        FloatColumn { name: self.name.clone(), values }
    }
}

impl Clone for StringColumn {
    fn clone(&self) -> (c: Self)
        ensures
            c.name@ == self.name@,
            c.values@ == self.values@,
    {
        let values = self.values.clone();
        assert(values@ =~= self.values@);
        StringColumn { name: self.name.clone(), values }
    }
}

impl Clone for Column {
    fn clone(&self) -> (c: Self)
        ensures
            c@ == self@,
    {
        match self {
            Column::Float(f) => Column::Float(f.clone()),
            Column::String(s) => Column::String(s.clone()),
        }
    }
}

} // verus!
