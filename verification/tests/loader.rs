use kythe_indexer::decimal::{dec_string, dec_vec};
use kythe_indexer::entries::{Entry, VName};
use kythe_indexer::errors::KytheError;
use kythe_indexer::provider::MemorySourceRoot;
use kythe_indexer::save_analysis::{
    encode_record, load_analysis, parse_record, AnalysisRecord, Entity, EntityKind, Reference,
    Span,
};

fn sample_record() -> AnalysisRecord {
    AnalysisRecord {
        name: "mycrate".to_string(),
        entities: vec![Entity {
            id: 7,
            qualname: "mycrate::Widget".to_string(),
            kind: EntityKind::DataType,
            complete: false,
            parent: None,
            def_span: Some(Span { path: "lib.rs".to_string(), start: 0, end: 9 }),
        }],
        refs: vec![Reference {
            span: Span { path: "lib.rs".to_string(), start: 11, end: 15 },
            target_id: 7,
            target_qualname: "mycrate::Widget".to_string(),
        }],
    }
}

#[test]
fn partial_tolerance() {
    let mut root = MemorySourceRoot::new();
    root.add_artifact("broken.an".to_string(), b"not an artifact".to_vec());
    root.add_artifact("good.an".to_string(), encode_record(&sample_record()));

    let (records, diags) = load_analysis(&root);
    assert_eq!(records.len(), 1, "exactly one record from the valid artifact");
    assert_eq!(records[0].name, "mycrate");
    assert_eq!(diags.len(), 1, "exactly one diagnostic for the corrupt artifact");
    match &diags[0] {
        KytheError::AnalysisDeserializationFailed(name) => assert_eq!(name, "broken.an"),
        _ => panic!("expected AnalysisDeserializationFailed"),
    }
}

#[test]
fn empty_directory_is_not_an_error() {
    let root = MemorySourceRoot::new();
    let (records, diags) = load_analysis(&root);
    assert!(records.is_empty());
    assert!(diags.is_empty());
}

#[test]
fn encode_then_parse_round_trip() {
    let record = sample_record();
    let bytes = encode_record(&record);
    let parsed = parse_record(&bytes).expect("a canonical encoding parses");
    assert_eq!(parsed, record);
}

#[test]
fn corrupt_artifacts_are_rejected() {
    assert!(parse_record(&Vec::new()).is_none(), "empty input");
    assert!(parse_record(&vec![3, 0, 0]).is_none(), "truncated length prefix");
    assert!(
        parse_record(&vec![1, 0, 0, 0, 0xFF, 0, 0, 0, 0, 0, 0, 0, 0]).is_none(),
        "a non-ASCII byte inside a string"
    );
    let mut trailing = encode_record(&sample_record());
    trailing.push(0);
    assert!(parse_record(&trailing).is_none(), "trailing bytes after the record");
    let mut truncated = encode_record(&sample_record());
    truncated.pop();
    assert!(parse_record(&truncated).is_none(), "a record cut short");
}

#[test]
fn fact_construction_validates_identity() {
    let named = VName::new(
        "sig".to_string(),
        "c".to_string(),
        "".to_string(),
        "".to_string(),
        "rust".to_string(),
    );
    let nameless = VName {
        signature: "".to_string(),
        corpus: "c".to_string(),
        root: "".to_string(),
        path: "".to_string(),
        language: "rust".to_string(),
    };

    assert!(Entry::new_fact(named.clone(), "/kythe/node/kind".to_string(), b"file".to_vec())
        .is_ok());
    match Entry::new_fact(named.clone(), "".to_string(), b"file".to_vec()) {
        Err(KytheError::MalformedEntity) => {},
        _ => panic!("an empty fact name must be rejected"),
    }
    match Entry::new_fact(nameless.clone(), "/kythe/text".to_string(), Vec::new()) {
        Err(KytheError::MalformedEntity) => {},
        _ => panic!("an unaddressable node must be rejected"),
    }
    assert!(Entry::new_edge(named.clone(), "/kythe/edge/ref".to_string(), named.clone(), None).is_ok());
    match Entry::new_edge(named.clone(), "".to_string(), named.clone(), Some(1)) {
        Err(KytheError::MalformedEntity) => {},
        _ => panic!("an empty edge label must be rejected"),
    }
    match Entry::new_edge(named, "/kythe/edge/ref".to_string(), nameless, None) {
        Err(KytheError::MalformedEntity) => {},
        _ => panic!("an unaddressable edge target must be rejected"),
    }
}

#[test]
fn decimal_rendering() {
    assert_eq!(dec_string(0), "0");
    assert_eq!(dec_string(7), "7");
    assert_eq!(dec_string(905), "905");
    assert_eq!(dec_string(4294967295), "4294967295");
    assert_eq!(dec_vec(0), b"0".to_vec());
    assert_eq!(dec_vec(1234), b"1234".to_vec());
}
