//! Splitting a table into facet panels, and the labels of text layers.
use vstd::prelude::*;
use crate::column::{ColumnView, strings_view};
use crate::mapping::Mapping;
use crate::table::{ColumnTable, lookup, row_count_of, text_named, text_named_error};
use crate::types::{Diagnostic, DiagnosticCode, cat3, str_eq};

verus! {

broadcast use vstd::string::to_string_from_display_ensures_for_str;

/// The distinct values of `s` in order of first appearance.
pub open spec fn first_seen(s: Seq<Seq<char>>) -> Seq<Seq<char>>
    decreases s.len(),
{
    if s.len() == 0 {
        Seq::empty()
    } else {
        let prev = first_seen(s.drop_last());
        if prev.contains(s.last()) {
            prev
        } else {
            prev.push(s.last())
        }
    }
}

/// The positions of `s` that hold `v`, in increasing order.
pub open spec fn rows_with(s: Seq<Seq<char>>, v: Seq<char>) -> Seq<usize>
    decreases s.len(),
{
    if s.len() == 0 {
        Seq::empty()
    } else {
        let prev = rows_with(s.drop_last(), v);
        if s.last() == v {
            prev.push((s.len() - 1) as usize)
        } else {
            prev
        }
    }
}

/// The text values of the first column named `name`, when it is a text column.
pub open spec fn text_values(cols: Seq<ColumnView>, name: Seq<char>) -> Seq<Seq<char>> {
    match lookup(cols, name) {
        Some(ColumnView::Text { values, .. }) => strings_view(values),
        _ => Seq::empty(),
    }
}

/// The facet levels of `column`: its distinct values in order of first appearance.
pub fn facet_levels(table: &ColumnTable, column: &str) -> (r: Result<Vec<String>, Diagnostic>)
    ensures
        r is Ok <==> text_named(table@, column@) && first_seen(text_values(table@, column@)).len() > 0,
        match r {
            Ok(levels) => strings_view(levels@) == first_seen(text_values(table@, column@)),
            Err(d) => if !text_named(table@, column@) {
                text_named_error(table@, column@, d)
            } else {
                d.matches(DiagnosticCode::EmptyData, "分面列没有水平"@, seq![])
            },
        },
{
    let col = match table.string_column(column) {
        Ok(c) => c,
        Err(d) => {
            return Err(d);
        },
    };
    let values = &col.values;
    let ghost vs = strings_view(values@);
    assert(vs == text_values(table@, column@));
    let mut levels: Vec<String> = Vec::new();
    let mut i: usize = 0;
    while i < values.len()
        invariant
            vs == strings_view(values@),
            i <= values@.len(),
            strings_view(levels@) == first_seen(vs.take(i as int)),
        decreases values@.len() - i,
    {
        let v = values[i].as_str();
        let mut seen = false;
        let mut k: usize = 0;
        while k < levels.len()
            invariant
                k <= levels@.len(),
                !seen ==> forall|q: int| 0 <= q < k ==> #[trigger] levels@[q]@ != v@,
                seen ==> strings_view(levels@).contains(v@),
            decreases levels@.len() - k,
        {
            if str_eq(levels[k].as_str(), v) {
                assert(strings_view(levels@)[k as int] == v@);
                seen = true;
            }
            k = k + 1;
        }
        proof {
            assert(vs.take(i + 1).drop_last() =~= vs.take(i as int));
            assert(vs.take(i + 1).last() == v@);
            if !seen {
                if strings_view(levels@).contains(v@) {
                    let q = choose|q: int| 0 <= q < levels@.len() && #[trigger] strings_view(levels@)[q] == v@;
                    assert(levels@[q]@ != v@);
                }
            }
        }
        if !seen {
            let ghost before = levels@;
            levels.push(values[i].clone());
            assert(strings_view(levels@) =~= strings_view(before).push(v@));
        }
        i = i + 1;
    }
    assert(vs.take(values@.len() as int) =~= vs);
    if levels.len() == 0 {
        return Err(Diagnostic::error(DiagnosticCode::EmptyData, "分面列没有水平".to_string()));
    }
    Ok(levels)
}

/// The rows of `column` whose value is `level`.
pub fn facet_row_indices(table: &ColumnTable, column: &str, level: &str) -> (r: Result<Vec<usize>, Diagnostic>)
    ensures
        r is Ok <==> text_named(table@, column@) && rows_with(text_values(table@, column@), level@).len() > 0,
        match r {
            Ok(rows) => rows@ == rows_with(text_values(table@, column@), level@),
            Err(d) => if !text_named(table@, column@) {
                text_named_error(table@, column@, d)
            } else {
                d.matches(DiagnosticCode::EmptyData, "分面水平 `"@ + level@ + "` 无行"@, seq![("level"@, level@)])
            },
        },
{
    let col = match table.string_column(column) {
        Ok(c) => c,
        Err(d) => {
            return Err(d);
        },
    };
    let values = &col.values;
    let ghost vs = strings_view(values@);
    assert(vs == text_values(table@, column@));
    let mut rows: Vec<usize> = Vec::new();
    let mut i: usize = 0;
    while i < values.len()
        invariant
            vs == strings_view(values@),
            i <= values@.len(),
            rows@ == rows_with(vs.take(i as int), level@),
        decreases values@.len() - i,
    {
        proof {
            assert(vs.take(i + 1).drop_last() =~= vs.take(i as int));
            assert(vs.take(i + 1).last() == values@[i as int]@);
        }
        if str_eq(values[i].as_str(), level) {
            rows.push(i);
        }
        i = i + 1;
    }
    assert(vs.take(values@.len() as int) =~= vs);
    if rows.len() == 0 {
        return Err(Diagnostic::error(DiagnosticCode::EmptyData, cat3("分面水平 `", level, "` 无行"))
            .with_param("level", level.to_string()));
    }
    Ok(rows)
}

/// The label of every row of a text layer: the mapped `label` column, else the
/// constant text repeated once per row.
pub fn resolve_labels(table: &ColumnTable, mapping: &Mapping, constant: Option<&str>) -> (r: Result<Vec<String>, Diagnostic>)
    ensures
        match mapping@.9 {
            Some(label) => match r {
                Ok(v) => text_named(table@, label) && strings_view(v@) == text_values(table@, label),
                Err(d) => !text_named(table@, label) && text_named_error(table@, label, d),
            },
            None => match constant {
                Some(t) => r matches Ok(v) && strings_view(v@) == Seq::new(row_count_of(table@), |k: int| t@),
                None => r matches Err(d) && d.matches(DiagnosticCode::MissingMapping, "缺少文本"@, seq![]),
            },
        },
{
    match &mapping.label {
        Some(label) => {
            let col = match table.string_column(label.column_name()) {
                Ok(c) => c,
                Err(d) => {
                    return Err(d);
                },
            };
            let mut out: Vec<String> = Vec::new();
            let mut i: usize = 0;
            while i < col.values.len()
                invariant
                    i <= col.values@.len(),
                    strings_view(out@) == strings_view(col.values@).take(i as int),
                decreases col.values@.len() - i,
            {
                let ghost before = out@;
                let item = col.values[i].clone();
                assert(item@ == col.values@[i as int]@);
                out.push(item);
                assert(strings_view(out@) =~= strings_view(before).push(col.values@[i as int]@));
                assert(strings_view(out@) =~= strings_view(col.values@).take(i + 1));
                i = i + 1;
            }
            assert(strings_view(col.values@).take(col.values@.len() as int) =~= strings_view(col.values@));
            Ok(out)
        },
        None => match constant {
            None => Err(Diagnostic::error(DiagnosticCode::MissingMapping, "缺少文本".to_string())),
            Some(text) => {
                let rows = table.row_count();
                let mut out: Vec<String> = Vec::new();
                let mut i: usize = 0;
                while i < rows
                    invariant
                        i <= rows,
                        strings_view(out@) == Seq::new(i as nat, |k: int| text@),
                    decreases rows - i,
                {
                    let ghost before = out@;
                    let item = text.to_string();
                    assert(item@ == text@);
                    out.push(item);
                    assert(strings_view(out@) =~= strings_view(before).push(text@));
                    assert(strings_view(out@) =~= Seq::new((i + 1) as nat, |k: int| text@));
                    i = i + 1;
                }
                Ok(out)
            },
        },
    }
}

/// Facet panels split the rows: every row's value is one of the levels, the
/// levels are distinct, and the panel of a level holds exactly the rows with
/// that value.
pub proof fn facet_panels_partition_rows(s: Seq<Seq<char>>, v: Seq<char>)
    requires
        s.len() <= usize::MAX,
    ensures
        forall|i: int| 0 <= i < s.len() ==> first_seen(s).contains(#[trigger] s[i]),
        first_seen(s).no_duplicates(),
        forall|r: usize| #[trigger] rows_with(s, v).contains(r) <==> (r < s.len() && s[r as int] == v),
    decreases s.len(),
{
    if s.len() > 0 {
        let t = s.drop_last();
        facet_panels_partition_rows(t, v);
        let prev = first_seen(t);
        assert forall|i: int| 0 <= i < s.len() implies first_seen(s).contains(#[trigger] s[i]) by {
            if i < t.len() {
                assert(t[i] == s[i]);
                assert(prev.contains(t[i]));
                if !prev.contains(s.last()) {
                    let k = choose|k: int| 0 <= k < prev.len() && #[trigger] prev[k] == t[i];
                    assert(prev.push(s.last())[k] == t[i]);
                }
            } else if !prev.contains(s.last()) {
                assert(prev.push(s.last())[prev.len() as int] == s.last());
            }
        }
        let rp = rows_with(t, v);
        assert forall|r: usize| #[trigger] rows_with(s, v).contains(r) <==> (r < s.len() && s[r as int] == v) by {
            if r < t.len() {
                assert(t[r as int] == s[r as int]);
            }
            if s.last() == v {
                let rs = rp.push((s.len() - 1) as usize);
                if rs.contains(r) && r != (s.len() - 1) as usize {
                    let k = choose|k: int| 0 <= k < rs.len() && #[trigger] rs[k] == r;
                    assert(k < rp.len());
                    assert(rp[k] == r);
                    assert(rp.contains(r));
                }
                if r < s.len() && s[r as int] == v {
                    if r < t.len() {
                        assert(rp.contains(r));
                        let k = choose|k: int| 0 <= k < rp.len() && #[trigger] rp[k] == r;
                        assert(rs[k] == r);
                    } else {
                        assert(rs[rp.len() as int] == r);
                    }
                }
            }
        }
    }
}

} // verus!
