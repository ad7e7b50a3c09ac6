//! Columnar table: named columns of equal, non-zero length.
use vstd::prelude::*;
use crate::column::{Column, ColumnView, FloatColumn, StringColumn};
use crate::types::{Diagnostic, DiagnosticCode, cat3, cat5, decimal, decimal_string, str_eq};

verus! {

broadcast use vstd::string::to_string_from_display_ensures_for_str;

/// What every table keeps: no empty column, distinct names, one common length.
pub open spec fn columns_wf(cols: Seq<ColumnView>) -> bool {
    &&& forall|i: int| 0 <= i < cols.len() ==> #[trigger] cols[i].len() > 0
    &&& forall|i: int, j: int|
        0 <= i < cols.len() && 0 <= j < cols.len() && i != j ==> #[trigger] cols[i].name()
            != #[trigger] cols[j].name()
    &&& forall|i: int| 0 <= i < cols.len() ==> #[trigger] cols[i].len() == cols[0].len()
}

/// Whether some column is named `name`.
pub open spec fn has_name(cols: Seq<ColumnView>, name: Seq<char>) -> bool {
    exists|i: int| 0 <= i < cols.len() && #[trigger] cols[i].name() == name
}

/// `i` is the position of the first column named `name`.
pub open spec fn first_named(cols: Seq<ColumnView>, name: Seq<char>, i: int) -> bool {
    &&& 0 <= i < cols.len()
    &&& cols[i].name() == name
    &&& forall|k: int| 0 <= k < i ==> #[trigger] cols[k].name() != name
}

/// The first column named `name`, if any.
pub open spec fn lookup(cols: Seq<ColumnView>, name: Seq<char>) -> Option<ColumnView> {
    if has_name(cols, name) {
        Some(cols[choose|i: int| first_named(cols, name, i)])
    } else {
        None
    }
}

/// The diagnostic for a name that no column has.
pub open spec fn unknown_column_error(name: Seq<char>, d: Diagnostic) -> bool {
    d.matches(DiagnosticCode::UnknownColumn, "未知列 `"@ + name + "`"@, seq![("column"@, name)])
}

/// The first column named `name` is numeric.
pub open spec fn float_named(cols: Seq<ColumnView>, name: Seq<char>) -> bool {
    lookup(cols, name) matches Some(ColumnView::Float { .. })
}

/// The diagnostic for asking a numeric column named `name` of a table with no such column.
pub open spec fn float_named_error(cols: Seq<ColumnView>, name: Seq<char>, d: Diagnostic) -> bool {
    match lookup(cols, name) {
        None => unknown_column_error(name, d),
        Some(c) => d.matches(DiagnosticCode::ValidationFailed, "列 `"@ + c.name() + "` 不是浮点列"@, seq![("column"@, c.name())]),
    }
}

/// The first column named `name` holds text.
pub open spec fn text_named(cols: Seq<ColumnView>, name: Seq<char>) -> bool {
    lookup(cols, name) matches Some(ColumnView::Text { .. })
}

/// The diagnostic for asking a text column named `name` of a table with no such column.
pub open spec fn text_named_error(cols: Seq<ColumnView>, name: Seq<char>, d: Diagnostic) -> bool {
    match lookup(cols, name) {
        None => unknown_column_error(name, d),
        Some(c) => d.matches(DiagnosticCode::ValidationFailed, "列 `"@ + c.name() + "` 不是字符串列"@, seq![("column"@, c.name())]),
    }
}

/// The number of rows of a table with these columns.
pub open spec fn row_count_of(cols: Seq<ColumnView>) -> nat {
    if cols.len() == 0 { 0 } else { cols[0].len() }
}

proof fn lemma_first_named_unique(cols: Seq<ColumnView>, name: Seq<char>, i: int)
    requires
        first_named(cols, name, i),
    ensures
        has_name(cols, name),
        lookup(cols, name) == Some(cols[i]),
{
    let j = choose|j: int| first_named(cols, name, j);
    assert(first_named(cols, name, j));
    if j < i {
        assert(cols[j].name() != name);
    }
    if i < j {
        assert(cols[i].name() != name);
    }
}

/// Whether `insert` accepts `column` into a table whose columns are `cols`.
pub open spec fn insert_ok(cols: Seq<ColumnView>, column: ColumnView) -> bool {
    &&& column.len() > 0
    &&& !has_name(cols, column.name())
    &&& (cols.len() == 0 || cols[0].len() == column.len())
}

/// The diagnostic `insert` gives when it refuses `column`.
pub open spec fn insert_error(cols: Seq<ColumnView>, column: ColumnView, d: Diagnostic) -> bool {
    let name = column.name();
    if column.len() == 0 {
        d.matches(DiagnosticCode::EmptyData, "列 `"@ + name + "` 为空"@, seq![("column"@, name)])
    } else if has_name(cols, name) {
        d.matches(DiagnosticCode::ValidationFailed, "列名重复：`"@ + name + "`"@, seq![("column"@, name)])
    } else {
        let len = decimal(column.len());
        let expected = decimal(cols[0].len());
        d.matches(
            DiagnosticCode::ColumnLengthMismatch,
            "列 `"@ + name + "` 长度 "@ + len + " 与既有列长度 "@ + expected + " 不一致"@,
            seq![("column"@, name), ("len"@, len), ("expected_len"@, expected)],
        )
    }
}

/// `new` is `old` restricted to the rows `rows`, in that order.
pub open spec fn selected(new: ColumnView, old: ColumnView, rows: Seq<usize>) -> bool {
    match old {
        ColumnView::Float { name, values } => new == (ColumnView::Float {
            name,
            values: rows.map_values(|k: usize| values[k as int]),
        }),
        ColumnView::Text { name, values } => new == (ColumnView::Text {
            name,
            values: rows.map_values(|k: usize| values[k as int]),
        }),
    }
}

/// `j` is the first position in `rows` that names a row at or past `count`.
pub open spec fn first_out_of_range(rows: Seq<usize>, count: nat, j: int) -> bool {
    &&& 0 <= j < rows.len()
    &&& rows[j] >= count
    &&& forall|k: int| 0 <= k < j ==> rows[k] < count
}

/// A columnar table.
#[derive(Debug)]
pub struct ColumnTable {
    columns: Vec<Column>,
}

impl View for ColumnTable {
    type V = Seq<ColumnView>;

    closed spec fn view(&self) -> Seq<ColumnView> {
        self.columns@.map_values(|c: Column| c@)
    }
}

impl ColumnTable {
    #[verifier::type_invariant]
    spec fn inv(self) -> bool {
        columns_wf(self.columns@.map_values(|c: Column| c@))
    }

    /// An empty table.
    pub fn new() -> (t: ColumnTable)
        ensures
            t@ == Seq::<ColumnView>::empty(),
    {
        ColumnTable { columns: Vec::new() }
    }

    /// Appends a numeric column.
    pub fn push_float(self, name: &str, values: Vec<u64>) -> (r: Result<ColumnTable, Diagnostic>)
        ensures
            r is Ok <==> insert_ok(self@, ColumnView::Float { name: name@, values: values@ }),
            match r {
                Ok(t) => t@ == self@.push(ColumnView::Float { name: name@, values: values@ }),
                Err(d) => insert_error(self@, ColumnView::Float { name: name@, values: values@ }, d),
            },
    {
        let mut t = self;
        let column = FloatColumn::new(name, values);
        match t.insert(Column::Float(column)) {
            Ok(()) => Ok(t),
            Err(d) => Err(d),
        }
    }

    /// Inserts a column; fails on an empty column, a taken name or a length that differs from the others.
    pub fn insert(&mut self, column: Column) -> (r: Result<(), Diagnostic>)
        ensures
            r is Ok <==> insert_ok(old(self)@, column@),
            match r {
                Ok(()) => final(self)@ == old(self)@.push(column@),
                Err(d) => final(self)@ == old(self)@ && insert_error(old(self)@, column@, d),
            },
    {
        proof { use_type_invariant(&*self); }
        let ghost cols = self@;
        let name = column.name();
        if column.is_empty() {
            return Err(Diagnostic::error(DiagnosticCode::EmptyData, cat3("列 `", name, "` 为空"))
                .with_param("column", name.to_string()));
        }
        let mut i: usize = 0;
        while i < self.columns.len()
            invariant
                0 <= i <= self.columns@.len(),
                cols == self@,
                cols.len() == self.columns@.len(),
                name@ == column@.name(),
                column@.len() > 0,
                forall|k: int| 0 <= k < i ==> #[trigger] cols[k].name() != name@,
            decreases self.columns@.len() - i,
        {
            assert(cols[i as int] == self.columns@[i as int]@);
            if str_eq(self.columns[i].name(), name) {
                assert(cols[i as int].name() == name@);
                assert(has_name(cols, name@));
                return Err(Diagnostic::error(DiagnosticCode::ValidationFailed, cat3("列名重复：`", name, "`"))
                    .with_param("column", name.to_string()));
            }
            i = i + 1;
        }
        assert(!has_name(cols, name@));
        if self.columns.len() > 0 && self.columns[0].len() != column.len() {
            assert(cols[0] == self.columns@[0]@);
            let len = decimal_string(column.len());
            let expected = decimal_string(self.columns[0].len());
            return Err(Diagnostic::error(
                DiagnosticCode::ColumnLengthMismatch,
                cat5(&cat3("列 `", name, "` 长度 "), len.as_str(), " 与既有列长度 ", expected.as_str(), " 不一致"),
            ).with_param("column", name.to_string()).with_param("len", len).with_param("expected_len", expected));
        }
        proof {
            if self.columns@.len() > 0 {
                assert(cols[0] == self.columns@[0]@);
            }
        }
        let mut taken: Vec<Column> = Vec::new();
        std::mem::swap(&mut taken, &mut self.columns);
        let ghost before = taken@;
        taken.push(column);
        assert(taken@.map_values(|c: Column| c@) =~= before.map_values(|c: Column| c@).push(column@));
        self.columns = taken;
        Ok(())
    }

    /// Appends a text column.
    pub fn push_string(self, name: &str, values: Vec<String>) -> (r: Result<ColumnTable, Diagnostic>)
        ensures
            r is Ok <==> insert_ok(self@, ColumnView::Text { name: name@, values: values@ }),
            match r {
                Ok(t) => t@ == self@.push(ColumnView::Text { name: name@, values: values@ }),
                Err(d) => insert_error(self@, ColumnView::Text { name: name@, values: values@ }, d),
            },
    {
        let mut t = self;
        let column = StringColumn::new(name, values);
        match t.insert(Column::String(column)) {
            Ok(()) => Ok(t),
            Err(d) => Err(d),
        }
    }

    /// The columns, in insertion order.
    pub fn columns(&self) -> (s: &[Column])
        ensures
            s@.map_values(|c: Column| c@) == self@,
    {
        self.columns.as_slice()
    }

    /// The column named `name`.
    pub fn column(&self, name: &str) -> (r: Result<&Column, Diagnostic>)
        ensures
            r is Ok <==> has_name(self@, name@),
            match r {
                Ok(c) => lookup(self@, name@) == Some(c@),
                Err(d) => unknown_column_error(name@, d),
            },
    {
        let ghost cols = self@;
        let mut i: usize = 0;
        while i < self.columns.len()
            invariant
                0 <= i <= self.columns@.len(),
                cols == self@,
                cols.len() == self.columns@.len(),
                forall|k: int| 0 <= k < i ==> #[trigger] cols[k].name() != name@,
            decreases self.columns@.len() - i,
        {
            assert(cols[i as int] == self.columns@[i as int]@);
            if str_eq(self.columns[i].name(), name) {
                proof { lemma_first_named_unique(cols, name@, i as int); }
                return Ok(&self.columns[i]);
            }
            i = i + 1;
        }
        proof {
            if has_name(cols, name@) {
                let k = choose|k: int| 0 <= k < cols.len() && #[trigger] cols[k].name() == name@;
                assert(cols[k].name() != name@);
            }
        }
        Err(Diagnostic::error(DiagnosticCode::UnknownColumn, cat3("未知列 `", name, "`"))
            .with_param("column", name.to_string()))
    }

    /// The numeric column named `name`.
    pub fn float_column(&self, name: &str) -> (r: Result<&FloatColumn, Diagnostic>)
        ensures
            r is Ok <==> float_named(self@, name@),
            match r {
                Ok(f) => lookup(self@, name@) == Some(ColumnView::Float { name: f.name@, values: f.values@ }),
                Err(d) => float_named_error(self@, name@, d),
            },
    {
        match self.column(name) {
            Ok(c) => c.as_float(),
            Err(d) => Err(d),
        }
    }

    /// The text column named `name`.
    pub fn string_column(&self, name: &str) -> (r: Result<&StringColumn, Diagnostic>)
        ensures
            r is Ok <==> text_named(self@, name@),
            match r {
                Ok(s) => lookup(self@, name@) == Some(ColumnView::Text { name: s.name@, values: s.values@ }),
                Err(d) => text_named_error(self@, name@, d),
            },
    {
        match self.column(name) {
            Ok(c) => c.as_string(),
            Err(d) => Err(d),
        }
    }

    /// Number of rows; zero for a table without columns.
    pub fn row_count(&self) -> (n: usize)
        ensures
            n == row_count_of(self@),
            columns_wf(self@),
    {
        proof { use_type_invariant(self); }
        if self.columns.len() == 0 {
            0
        } else {
            assert(self@[0] == self.columns@[0]@);
            self.columns[0].len()
        }
    }

    /// Whether the table has no columns.
    pub fn is_empty(&self) -> (b: bool)
        ensures
            b == (self@.len() == 0),
    {
        self.columns.len() == 0
    }

    /// The rows `indices` of every column, in the order given; fails on an empty
    /// selection or on an index at or past the row count.
    pub fn select_rows(&self, indices: &[usize]) -> (r: Result<ColumnTable, Diagnostic>)
        ensures
            r is Ok <==> indices@.len() > 0 && (self@.len() == 0 || forall|j: int|
                0 <= j < indices@.len() ==> #[trigger] indices@[j] < row_count_of(self@)),
            match r {
                Ok(t) => t@.len() == self@.len() && forall|i: int|
                    0 <= i < self@.len() ==> selected(#[trigger] t@[i], self@[i], indices@),
                Err(d) => if indices@.len() == 0 {
                    d.matches(DiagnosticCode::EmptyData, "行子集为空"@, seq![])
                } else {
                    exists|j: int| #[trigger]
                        first_out_of_range(indices@, row_count_of(self@), j) && d.matches(
                            DiagnosticCode::ValidationFailed,
                            "行索引 "@ + decimal(indices@[j] as nat) + " 越界（行数 "@ + decimal(
                                row_count_of(self@),
                            ) + "）"@,
                            seq![("row"@, decimal(indices@[j] as nat))],
                        )
                },
            },
    {
        proof { use_type_invariant(self); }
        if indices.len() == 0 {
            return Err(Diagnostic::error(DiagnosticCode::EmptyData, "行子集为空".to_string()));
        }
        let rows = self.row_count();
        let ghost cols = self@;
        let mut out = ColumnTable::new();
        let mut ci: usize = 0;
        while ci < self.columns.len()
            invariant
                0 <= ci <= self.columns@.len(),
                cols == self@,
                cols.len() == self.columns@.len(),
                columns_wf(cols),
                indices@.len() > 0,
                rows == row_count_of(cols),
                out@.len() == ci,
                forall|k: int| 0 <= k < ci ==> selected(#[trigger] out@[k], cols[k], indices@),
                ci > 0 ==> forall|j: int| 0 <= j < indices@.len() ==> #[trigger] indices@[j] < rows,
            decreases self.columns@.len() - ci,
        {
            assert(cols[ci as int] == self.columns@[ci as int]@);
            assert(cols[ci as int].len() == rows);
            let column = match &self.columns[ci] {
                Column::Float(col) => {
                    let mut values: Vec<u64> = Vec::new();
                    let mut j: usize = 0;
                    while j < indices.len()
                        invariant
                            0 <= j <= indices@.len(),
                            col.values@.len() == rows,
                            rows == row_count_of(self@),
                            self@.len() > 0,
                            indices@.len() > 0,
                            values@ == indices@.take(j as int).map_values(|k: usize| col.values@[k as int]),
                            forall|q: int| 0 <= q < j ==> #[trigger] indices@[q] < rows,
                        decreases indices@.len() - j,
                    {
                        let index = indices[j];
                        if index >= col.values.len() {
                            let shown = decimal_string(index);
                            let total = decimal_string(rows);
                            assert(first_out_of_range(indices@, rows as nat, j as int));
                            return Err(Diagnostic::error(
                                DiagnosticCode::ValidationFailed,
                                cat5("行索引 ", shown.as_str(), " 越界（行数 ", total.as_str(), "）"),
                            ).with_param("row", shown));
                        }
                        values.push(col.values[index]);
                        assert(indices@.take(j + 1) =~= indices@.take(j as int).push(index));
                        j = j + 1;
                    }
                    assert(indices@.take(indices@.len() as int) =~= indices@);
                    Column::Float(FloatColumn::new(col.name.as_str(), values))
                },
                Column::String(col) => {
                    let mut values: Vec<String> = Vec::new();
                    let mut j: usize = 0;
                    while j < indices.len()
                        invariant
                            0 <= j <= indices@.len(),
                            col.values@.len() == rows,
                            rows == row_count_of(self@),
                            self@.len() > 0,
                            indices@.len() > 0,
                            values@ == indices@.take(j as int).map_values(|k: usize| col.values@[k as int]),
                            forall|q: int| 0 <= q < j ==> #[trigger] indices@[q] < rows,
                        decreases indices@.len() - j,
                    {
                        let index = indices[j];
                        if index >= col.values.len() {
                            let shown = decimal_string(index);
                            let total = decimal_string(rows);
                            assert(first_out_of_range(indices@, rows as nat, j as int));
                            return Err(Diagnostic::error(
                                DiagnosticCode::ValidationFailed,
                                cat5("行索引 ", shown.as_str(), " 越界（行数 ", total.as_str(), "）"),
                            ).with_param("row", shown));
                        }
                        values.push(col.values[index].clone());
                        assert(indices@.take(j + 1) =~= indices@.take(j as int).push(index));
                        j = j + 1;
                    }
                    assert(indices@.take(indices@.len() as int) =~= indices@);
                    Column::String(StringColumn::new(col.name.as_str(), values))
                },
            };
            assert(selected(column@, cols[ci as int], indices@));
            proof {
                assert forall|k: int| 0 <= k < out@.len() implies #[trigger] out@[k].name() != column@.name() by {
                    assert(selected(out@[k], cols[k], indices@));
                    assert(out@[k].name() == cols[k].name());
                    assert(cols[k].name() != cols[ci as int].name());
                }
            }
            match out.insert(column) {
                Ok(()) => {},
                Err(d) => {
                    return Err(d);
                },
            }
            ci = ci + 1;
        }
        Ok(out)
    }

    /// Checks that the table has columns, rows, and one common length.
    pub fn validate(&self) -> (r: Result<(), Diagnostic>)
        ensures
            r is Ok <==> self@.len() > 0,
            r matches Err(d) ==> d.matches(DiagnosticCode::EmptyData, "表没有任何列"@, seq![]),
    {
        proof { use_type_invariant(self); }
        if self.columns.len() == 0 {
            return Err(Diagnostic::error(DiagnosticCode::EmptyData, "表没有任何列".to_string()));
        }
        let expected = self.row_count();
        if expected == 0 {
            assert(self@[0].len() > 0);
            return Err(Diagnostic::error(DiagnosticCode::EmptyData, "表行数为 0".to_string()));
        }
        let mut i: usize = 0;
        while i < self.columns.len()
            invariant
                0 <= i <= self.columns@.len(),
                columns_wf(self@),
                self@.len() == self.columns@.len(),
                expected == self@[0].len(),
            decreases self.columns@.len() - i,
        {
            assert(self@[i as int] == self.columns@[i as int]@);
            if self.columns[i].len() != expected {
                let name = self.columns[i].name();
                return Err(Diagnostic::error(DiagnosticCode::ColumnLengthMismatch, cat3("列 `", name, "` 长度不一致"))
                    .with_param("column", name.to_string()));
            }
            i = i + 1;
        }
        Ok(())
    }
}

impl Clone for ColumnTable {
    fn clone(&self) -> (t: Self)
        ensures
            t@ == self@,
    {
        proof { use_type_invariant(self); }
        let columns = self.columns.clone();
        assert(columns@.map_values(|c: Column| c@) =~= self.columns@.map_values(|c: Column| c@)) by {
            assert forall|i: int| 0 <= i < columns@.len() implies #[trigger] columns@[i]@ == self.columns@[i]@ by {
                assert(cloned::<Column>(self.columns@[i], columns@[i]));
            }
        }
        ColumnTable { columns }
    }
}

proof fn lemma_first_named_exists(cols: Seq<ColumnView>, name: Seq<char>, j: int)
    requires
        0 <= j < cols.len(),
        cols[j].name() == name,
    ensures
        exists|i: int| first_named(cols, name, i),
    decreases j,
{
    if exists|k: int| 0 <= k < j && #[trigger] cols[k].name() == name {
        let k = choose|k: int| 0 <= k < j && #[trigger] cols[k].name() == name;
        lemma_first_named_exists(cols, name, k);
    } else {
        assert(first_named(cols, name, j));
    }
}

/// A column accepted by `insert` is what a later lookup of its name finds; the
/// lookup of every other name is unchanged; the table stays well formed, and
/// its row count is the new column's length.
pub proof fn insert_then_lookup(cols: Seq<ColumnView>, column: ColumnView, other: Seq<char>)
    requires
        columns_wf(cols),
        insert_ok(cols, column),
    ensures
        columns_wf(cols.push(column)),
        lookup(cols.push(column), column.name()) == Some(column),
        other != column.name() ==> lookup(cols.push(column), other) == lookup(cols, other),
        row_count_of(cols.push(column)) == column.len(),
{
    let after = cols.push(column);
    let n = cols.len() as int;
    assert forall|k: int| 0 <= k < n implies #[trigger] after[k].name() != column.name() by {
        assert(after[k] == cols[k]);
        if cols[k].name() == column.name() {
            assert(has_name(cols, column.name()));
        }
    }
    assert forall|i: int, j: int|
        0 <= i < after.len() && 0 <= j < after.len() && i != j implies #[trigger] after[i].name()
            != #[trigger] after[j].name() by {
        if i < n && j < n {
            assert(after[i] == cols[i] && after[j] == cols[j]);
        }
    }
    assert forall|i: int| 0 <= i < after.len() implies #[trigger] after[i].len() == after[0].len() by {
        if n > 0 {
            assert(after[0] == cols[0]);
            if i < n {
                assert(after[i] == cols[i]);
            }
        }
    }
    assert(forall|i: int| 0 <= i < after.len() ==> #[trigger] after[i].len() > 0);
    assert(first_named(after, column.name(), n));
    lemma_first_named_unique(after, column.name(), n);
    if other != column.name() {
        if has_name(cols, other) {
            let j = choose|j: int| 0 <= j < cols.len() && #[trigger] cols[j].name() == other;
            lemma_first_named_exists(cols, other, j);
            let i = choose|i: int| first_named(cols, other, i);
            assert(first_named(cols, other, i));
            assert(first_named(after, other, i)) by {
                assert forall|k: int| 0 <= k < i implies #[trigger] after[k].name() != other by {
                    assert(after[k] == cols[k]);
                }
            }
            lemma_first_named_unique(after, other, i);
            lemma_first_named_unique(cols, other, i);
        } else {
            assert(!has_name(after, other)) by {
                if has_name(after, other) {
                    let k = choose|k: int| 0 <= k < after.len() && #[trigger] after[k].name() == other;
                    if k < n {
                        assert(cols[k].name() == other);
                    }
                }
            }
        }
    }
    if n > 0 {
        assert(after[0] == cols[0]);
    }
}

/// Selecting every row, in order, gives back each column unchanged.
pub proof fn select_all_rows_identity(new: ColumnView, old: ColumnView, rows: Seq<usize>)
    requires
        rows.len() == old.len(),
        forall|k: int| 0 <= k < rows.len() ==> #[trigger] rows[k] == k,
        selected(new, old, rows),
    ensures
        new == old,
{
    match old {
        ColumnView::Float { name, values } => {
            assert(rows.map_values(|k: usize| values[k as int]) =~= values);
        },
        ColumnView::Text { name, values } => {
            assert(rows.map_values(|k: usize| values[k as int]) =~= values);
        },
    }
}

} // verus!
