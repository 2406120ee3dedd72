use strata_core::external::JsonShape;
use strata_core::json_infer::{ColumnType, Jv};
use strata_core::json_read::{infer_files, record_iter};

#[test]
fn a_stream_is_read_value_by_value_and_stops_at_its_budget() {
    let bytes = b"{\"a\": 1}\n{\"a\": 2.5} {\"b\": \"x\"}\n{oops";
    let (recs, err) = record_iter(bytes, JsonShape::NewlineDelimited, Some(3));
    assert_eq!(recs.len(), 3);
    assert_eq!(err, None, "the broken fourth value is never reached");
    let (recs, err) = record_iter(bytes, JsonShape::NewlineDelimited, None);
    assert_eq!(recs.len(), 3);
    let err = err.expect("the fourth value is not JSON");
    assert!(err.starts_with("Json error: Not valid JSON: "), "{err}");
}

#[test]
fn an_array_document_gives_its_elements_and_anything_else_is_refused() {
    let (recs, err) = record_iter(b"[{\"a\": 1}, {\"a\": 2}, {\"a\": 3}]", JsonShape::Array, Some(2));
    assert_eq!(recs.len(), 2);
    assert_eq!(err, None);
    let (recs, err) = record_iter(b"{\"a\": 1}", JsonShape::Array, None);
    assert!(recs.is_empty());
    assert_eq!(err.as_deref(), Some("Json error: Expected JSON record to be an object, found Object"));
    let (_, err) = record_iter(b"[1, 2", JsonShape::Array, None);
    assert!(err.expect("truncated").starts_with("Json error: Not valid JSON: EOF while parsing"));
}

#[test]
fn inference_reads_across_files_under_one_budget() {
    let files = vec![b"{\"a\": 1}\n{\"a\": 2}".to_vec(), b"{\"a\": \"x\"}\n{broken".to_vec()];
    let fields = infer_files(&files, JsonShape::NewlineDelimited, Some(2)).expect("two clean records");
    assert_eq!(fields.len(), 1);
    assert_eq!(fields[0].name, "a");
    assert_eq!(fields[0].data_type, ColumnType::Int64);

    let err = infer_files(&files, JsonShape::NewlineDelimited, None).expect_err("the second file breaks");
    assert!(err.starts_with("Json error: Not valid JSON: "), "{err}");

    let err = infer_files(&files, JsonShape::NewlineDelimited, Some(0)).expect_err("no sample");
    assert_eq!(err, "Json error: Rows scanned to infer must be at least 1. Set a higher value in Table Config.");
}

#[test]
fn a_record_that_is_not_an_object_is_reported_before_a_later_syntax_error() {
    let files = vec![b"{\"a\": 1}\n7\n{broken".to_vec()];
    let err = infer_files(&files, JsonShape::NewlineDelimited, None).expect_err("7 is not a record");
    assert_eq!(err, "Json error: Expected JSON record to be an object, found Number");
    let (recs, _) = record_iter(b"null", JsonShape::NewlineDelimited, None);
    assert!(matches!(recs[0], Jv::Null));
}
