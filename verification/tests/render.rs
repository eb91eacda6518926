use stepdb::CreateIndex;
use stepdb::Index;
use stepdb::SortOrder;

fn descriptor(cols: Vec<(&str, SortOrder)>) -> Index {
    Index {
        index_name: "idx_t_value".to_string(),
        table_name: "t".to_string(),
        columns: cols.into_iter().map(|(n, o)| (n.to_string(), o)).collect(),
    }
}

#[test]
fn renders_single_column_index() {
    let ci = CreateIndex::new(descriptor(vec![("value", SortOrder::Asc)]));
    assert_eq!(ci.to_sql(), "CREATE INDEX idx_t_value ON t (value ASC)");
}

#[test]
fn renders_multi_column_index_with_separators() {
    let ci = CreateIndex::new(descriptor(vec![
        ("value", SortOrder::Asc),
        ("id", SortOrder::Desc),
        ("extra", SortOrder::Asc),
    ]));
    assert_eq!(
        ci.to_sql(),
        "CREATE INDEX idx_t_value ON t (value ASC, id DESC, extra ASC)"
    );
}

#[test]
fn forwards_access_to_the_wrapped_descriptor() {
    let mut ci = CreateIndex::new(descriptor(vec![("value", SortOrder::Asc)]));
    assert_eq!(ci.index().table_name, "t");
    assert_eq!(ci.index().columns.len(), 1);
    let mut replacement = descriptor(vec![("id", SortOrder::Desc)]);
    replacement.table_name = "u".to_string();
    ci.set_index(replacement);
    assert_eq!(ci.to_sql(), "CREATE INDEX idx_t_value ON u (id DESC)");
}
