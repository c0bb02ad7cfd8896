use redis_viewer::model::{classify_kind, StoreKind};

fn classify(report: &str) -> StoreKind {
    classify_kind(&report.to_string())
}

#[test]
fn each_store_type_report_names_its_kind() {
    assert_eq!(classify("string"), StoreKind::Scalar);
    assert_eq!(classify("list"), StoreKind::List);
    assert_eq!(classify("set"), StoreKind::Members);
    assert_eq!(classify("zset"), StoreKind::RankedSet);
    assert_eq!(classify("hash"), StoreKind::FieldMap);
}

#[test]
fn missing_key_report_classifies_as_absent() {
    assert_eq!(classify("none"), StoreKind::Absent);
}

#[test]
fn unknown_report_classifies_as_absent() {
    assert_eq!(classify("stream"), StoreKind::Absent);
    assert_eq!(classify(""), StoreKind::Absent);
    assert_eq!(classify("String"), StoreKind::Absent);
}
