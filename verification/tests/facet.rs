use apollo::facet::{facet_levels, facet_row_indices, resolve_labels};
use apollo::mapping::{AestheticExpr, Mapping};
use apollo::table::ColumnTable;
use apollo::DiagnosticCode;

fn grouped() -> ColumnTable {
    ColumnTable::new()
        .push_float("x", vec![1, 2, 3, 4])
        .unwrap()
        .push_string("g", vec!["b".to_string(), "a".to_string(), "b".to_string(), "c".to_string()])
        .unwrap()
}

#[test]
fn facet_levels_keep_first_appearance_order() {
    assert_eq!(facet_levels(&grouped(), "g").unwrap(), vec!["b".to_string(), "a".to_string(), "c".to_string()]);
    let err = facet_levels(&grouped(), "x").unwrap_err();
    assert_eq!(err.code, DiagnosticCode::ValidationFailed);
    assert_eq!(err.message, "列 `x` 不是字符串列");
    let err = facet_levels(&grouped(), "h").unwrap_err();
    assert_eq!(err.code, DiagnosticCode::UnknownColumn);
}

#[test]
fn facet_rows_are_those_with_the_level() {
    let table = grouped();
    assert_eq!(facet_row_indices(&table, "g", "b").unwrap(), vec![0, 2]);
    assert_eq!(facet_row_indices(&table, "g", "c").unwrap(), vec![3]);
    let err = facet_row_indices(&table, "g", "z").unwrap_err();
    assert_eq!(err.code, DiagnosticCode::EmptyData);
    assert_eq!(err.message, "分面水平 `z` 无行");
    assert_eq!(err.params, vec![("level".to_string(), "z".to_string())]);
}

#[test]
fn facet_panels_cover_every_row_once() {
    let table = grouped();
    let mut seen = vec![0; table.row_count()];
    for level in facet_levels(&table, "g").unwrap() {
        for row in facet_row_indices(&table, "g", &level).unwrap() {
            seen[row] += 1;
        }
    }
    assert_eq!(seen, vec![1, 1, 1, 1]);
}

#[test]
fn labels_come_from_the_label_column_or_a_constant() {
    let table = grouped();
    let mut mapping = Mapping::default();
    assert_eq!(resolve_labels(&table, &mapping, Some("t")).unwrap(), vec!["t".to_string(); 4]);
    let err = resolve_labels(&table, &mapping, None).unwrap_err();
    assert_eq!(err.code, DiagnosticCode::MissingMapping);
    assert_eq!(err.message, "缺少文本");
    mapping.label = Some(AestheticExpr::column("g"));
    assert_eq!(resolve_labels(&table, &mapping, Some("t")).unwrap()[3], "c");
    mapping.label = Some(AestheticExpr::column("x"));
    assert_eq!(resolve_labels(&table, &mapping, None).unwrap_err().code, DiagnosticCode::ValidationFailed);
}
