//! Checking the metadata fields a host passes for a new `ObjectMetadata`.

use monty::field_args::{
    parse_metadata_field, parse_object_metadata, validate_no_empty_strings, FieldArg, FieldError, FieldValue,
};

fn labels(items: &[&str]) -> Vec<String> {
    items.iter().map(|s| s.to_string()).collect()
}

fn labels_of(v: FieldValue) -> Option<Vec<String>> {
    match v {
        FieldValue::Universal => None,
        FieldValue::Labels(ls) => Some(ls),
    }
}

#[test]
fn empty_label_is_refused_with_the_field_name() {
    assert_eq!(validate_no_empty_strings(&labels(&["a", "b"]), "tags"), Ok(()));
    assert_eq!(validate_no_empty_strings(&labels(&[]), "tags"), Ok(()));
    assert_eq!(
        validate_no_empty_strings(&labels(&["a", ""]), "producers"),
        Err("producers must not contain empty strings".to_string())
    );
}

#[test]
fn omitted_field_takes_the_default() {
    let v = parse_metadata_field(FieldArg::Omitted, "consumers", FieldValue::Universal).ok().unwrap();
    assert_eq!(labels_of(v), None);
    let v = parse_metadata_field(FieldArg::Omitted, "tags", FieldValue::Labels(vec![])).ok().unwrap();
    assert_eq!(labels_of(v), Some(vec![]));
}

#[test]
fn universal_and_labels_are_kept() {
    let v = parse_metadata_field(FieldArg::Universal, "tags", FieldValue::Labels(vec![])).ok().unwrap();
    assert_eq!(labels_of(v), None);
    let v = parse_metadata_field(FieldArg::Labels(labels(&["x"])), "tags", FieldValue::Universal).ok().unwrap();
    assert_eq!(labels_of(v), Some(labels(&["x"])));
}

#[test]
fn bad_fields_are_refused() {
    match parse_metadata_field(FieldArg::Labels(labels(&[""])), "tags", FieldValue::Universal) {
        Err(FieldError::EmptyLabel(m)) => assert_eq!(m, "tags must not contain empty strings"),
        _ => panic!("expected an empty-label error"),
    }
    match parse_metadata_field(FieldArg::Other("list".to_string()), "consumers", FieldValue::Universal) {
        Err(FieldError::WrongType(m)) => {
            assert_eq!(m, "consumers must be a frozenset[str] or UNIVERSAL, got list")
        },
        _ => panic!("expected a type error"),
    }
}

#[test]
fn object_metadata_defaults_and_first_error() {
    let (p, c, t) = parse_object_metadata(FieldArg::Omitted, FieldArg::Omitted, FieldArg::Omitted).ok().unwrap();
    assert_eq!((labels_of(p), labels_of(c), labels_of(t)), (Some(vec![]), None, Some(vec![])));
    let r = parse_object_metadata(
        FieldArg::Labels(labels(&["db"])),
        FieldArg::Other("int".to_string()),
        FieldArg::Labels(labels(&[""])),
    );
    match r {
        Err(FieldError::WrongType(m)) => assert_eq!(m, "consumers must be a frozenset[str] or UNIVERSAL, got int"),
        _ => panic!("expected the consumers error first"),
    }
}
