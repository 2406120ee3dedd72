use strata_core::json_infer::{array_records, infer, infer_sample, infer_value, schema_of, ColumnType, Field, Inferred, Jv};

fn integer(_: i64) -> Jv {
    Jv::Number { is_i64: true }
}
fn float(_: f64) -> Jv {
    Jv::Number { is_i64: false }
}
fn text(s: &str) -> Jv {
    Jv::String(s.to_string())
}
fn dup(v: &Jv) -> Jv {
    match v {
        Jv::Null => Jv::Null,
        Jv::Bool(b) => Jv::Bool(*b),
        Jv::Number { is_i64 } => Jv::Number { is_i64: *is_i64 },
        Jv::String(s) => Jv::String(s.clone()),
        Jv::Array(items) => Jv::Array(items.iter().map(dup).collect()),
        Jv::Object(entries) => {
            Jv::Object(entries.iter().map(|(k, v)| (k.clone(), dup(v))).collect())
        }
    }
}
fn obj(entries: &[(&str, Jv)]) -> Jv {
    Jv::Object(entries.iter().map(|(k, v)| (k.to_string(), dup(v))).collect())
}
fn arr(items: &[Jv]) -> Jv {
    Jv::Array(items.iter().map(dup).collect())
}

fn schema(records: &[Jv]) -> Vec<Field> {
    infer(records).expect("records are objects")
}

fn field<'a>(s: &'a [Field], name: &str) -> &'a Field {
    s.iter().find(|f| f.name == name).expect("field present")
}

#[test]
fn a_key_that_is_scalar_object_and_array_becomes_text() {
    let s = schema(&[
        obj(&[("content", text("plain text"))]),
        obj(&[("content", obj(&[("kind", text("block"))]))]),
        obj(&[("content", arr(&[text("a"), Jv::Bool(true)]))]),
    ]);
    assert_eq!(field(&s, "content").data_type, ColumnType::Utf8);
    assert!(field(&s, "content").json_text);
}

#[test]
fn the_conflict_state_is_order_independent() {
    let shapes = [
        obj(&[("c", obj(&[("a", integer(1))]))]),
        obj(&[("c", arr(&[text("x")]))]),
        obj(&[("c", integer(3))]),
    ];
    for rotation in 0..shapes.len() {
        let mut rotated: Vec<Jv> = shapes.iter().map(dup).collect();
        rotated.rotate_left(rotation);
        assert_eq!(
            field(&schema(&rotated), "c").data_type,
            ColumnType::Utf8,
            "rotation {rotation} disagreed"
        );
    }
}

#[test]
fn combinations_arrow_accepts_are_untouched() {
    let s = schema(&[
        obj(&[
            ("i", integer(1)),
            ("f", float(1.5)),
            ("b", Jv::Bool(true)),
            ("s", text("x")),
            ("l", arr(&[integer(1), integer(2)])),
            ("o", obj(&[("k", text("v"))])),
        ]),
        obj(&[
            ("i", integer(2)),
            ("f", float(2.5)),
            ("b", Jv::Bool(false)),
            ("s", text("y")),
            ("l", arr(&[integer(3)])),
            ("o", obj(&[("k", text("w"))])),
        ]),
    ]);
    assert_eq!(field(&s, "i").data_type, ColumnType::Int64);
    assert_eq!(field(&s, "f").data_type, ColumnType::Float64);
    assert_eq!(field(&s, "b").data_type, ColumnType::Boolean);
    assert_eq!(field(&s, "s").data_type, ColumnType::Utf8);
    assert!(matches!(field(&s, "l").data_type, ColumnType::List(_)));
    assert!(matches!(field(&s, "o").data_type, ColumnType::Struct(_)));
    // Fields come out in key order, whatever order the record wrote them in.
    let names: Vec<&str> = s.iter().map(|f| f.name.as_str()).collect();
    assert_eq!(names, vec!["b", "f", "i", "l", "o", "s"]);
}

#[test]
fn arrows_scalar_coercions_are_kept() {
    let s = schema(&[obj(&[("n", integer(1))]), obj(&[("n", float(2.5))])]);
    assert_eq!(field(&s, "n").data_type, ColumnType::Float64);

    let s = schema(&[obj(&[("p", integer(1))]), obj(&[("p", arr(&[integer(2), integer(3)]))])]);
    let ColumnType::List(inner) = &field(&s, "p").data_type else {
        panic!("scalar and list promote to a list");
    };
    assert_eq!(**inner, ColumnType::Int64);
}

#[test]
fn a_nested_conflict_stringifies_only_that_field() {
    let s = schema(&[
        obj(&[("outer", obj(&[("id", integer(1)), ("content", text("text"))]))]),
        obj(&[("outer", obj(&[("id", integer(2)), ("content", obj(&[("nested", Jv::Bool(true))]))]))]),
    ]);
    let ColumnType::Struct(fields) = &field(&s, "outer").data_type else {
        panic!("outer stays a struct");
    };
    assert_eq!(field(fields, "id").data_type, ColumnType::Int64);
    assert_eq!(field(fields, "content").data_type, ColumnType::Utf8);
}

#[test]
fn a_conflict_inside_a_list_of_structs_stringifies() {
    let s = schema(&[obj(&[(
        "blocks",
        arr(&[
            obj(&[("content", text("text"))]),
            obj(&[("content", obj(&[("kind", text("image"))]))]),
            obj(&[("content", arr(&[text("a"), text("b")]))]),
        ]),
    )])]);
    let ColumnType::List(elem) = &field(&s, "blocks").data_type else {
        panic!("blocks is a list");
    };
    let ColumnType::Struct(fields) = &**elem else {
        panic!("of structs");
    };
    assert_eq!(fields[0].data_type, ColumnType::Utf8);
}

#[test]
fn null_is_not_a_conflict() {
    let s = schema(&[obj(&[("c", Jv::Null)]), obj(&[("c", obj(&[("k", integer(1))]))])]);
    assert!(matches!(field(&s, "c").data_type, ColumnType::Struct(_)));

    let s = schema(&[obj(&[("c", Jv::Null)])]);
    assert_eq!(field(&s, "c").data_type, ColumnType::Null);
}

#[test]
fn a_top_level_non_record_is_still_an_error() {
    let arr = arr(&[integer(1), integer(2), integer(3)]);
    let err = infer(std::slice::from_ref(&arr)).expect_err("not a record");
    assert_eq!(err, "Expected JSON record to be an object, found Array");
    assert!(!err.contains('1'), "the value must not be interpolated: {err}");
}

#[test]
fn an_empty_object_is_carried_as_json_text() {
    let s = schema(&[obj(&[("e", obj(&[]))])]);
    assert_eq!(field(&s, "e").data_type, ColumnType::Utf8);
    assert!(field(&s, "e").json_text);
    assert!(!field(&schema(&[obj(&[("s", text("x"))])]), "s").json_text);
}

#[test]
fn mixed_scalars_that_do_not_meet_become_text() {
    let s = schema(&[obj(&[("m", Jv::Bool(true))]), obj(&[("m", integer(1))])]);
    assert_eq!(field(&s, "m").data_type, ColumnType::Utf8);
    assert!(!field(&s, "m").json_text);
}

#[test]
fn merging_in_place_agrees_with_the_schema_of_one_pass() {
    let mut a = infer_value(&obj(&[("k", integer(1))]));
    a.merge(infer_value(&obj(&[("k", text("x")), ("z", Jv::Null)])));
    match a {
        Inferred::Object(fields) => {
            let s = schema_of(&fields);
            assert_eq!(s.len(), 2);
            assert_eq!(s[0].name, "k");
            assert_eq!(s[0].data_type, ColumnType::Utf8);
            assert_eq!(s[1].name, "z");
            assert_eq!(s[1].data_type, ColumnType::Null);
        }
        _ => panic!("an object merged with an object stays an object"),
    }
}

#[test]
fn an_array_document_yields_its_elements_and_anything_else_is_named() {

    let recs = array_records(arr(&[obj(&[("a", integer(1))]), Jv::Null])).expect("an array");
    assert_eq!(recs.len(), 2);
    assert_eq!(
        array_records(obj(&[("a", integer(1))])).err(),
        Some("Json error: Expected JSON record to be an object, found Object".to_string())
    );
    assert_eq!(
        array_records(text("x")).err(),
        Some("Json error: Expected JSON record to be an object, found String".to_string())
    );
}

#[test]
fn a_sample_reads_no_more_than_asked_and_never_nothing() {

    let recs = vec![obj(&[("a", integer(1))]), obj(&[("b", text("x"))]), integer(5)];
    let s = infer_sample(&recs, Some(2)).expect("the third record is never read");
    assert_eq!(s.len(), 2);
    assert_eq!(
        infer_sample(&recs, None).err(),
        Some("Json error: Expected JSON record to be an object, found Number".to_string())
    );
    assert_eq!(infer_sample(&recs, Some(10)).err(), infer_sample(&recs, None).err());
    assert_eq!(
        infer_sample(&recs, Some(0)).err(),
        Some("Json error: Rows scanned to infer must be at least 1. Set a higher value in Table Config.".to_string())
    );
}
