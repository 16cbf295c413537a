use bson::Bson;
use rusdb::collection::Collection;
use rusdb::document::{decode_document, Document};
use rusdb::persist::{decode_collection, encode_collection};
use rusdb::service::{DbError, RusDbServ};

fn bytes_of(fields: Vec<(&str, Bson)>) -> Vec<u8> {
    let mut d = bson::Document::new();
    for (k, v) in fields {
        d.insert(k, v);
    }
    bson::to_vec(&d).unwrap()
}

fn doc_of(fields: Vec<(&str, Bson)>) -> Document {
    decode_document(&bytes_of(fields)).unwrap()
}

fn value(v: Bson) -> Vec<u8> {
    let mut one = bson::Document::new();
    one.insert("", v);
    bson::to_vec(&one).unwrap()
}

fn field(d: &Document, key: &str) -> Option<Vec<u8>> {
    d.get(&key.to_string()).cloned()
}

fn id_text(id: u128) -> String {
    uuid::Uuid::from_u128(id).to_string()
}

#[test]
fn insert_then_get_returns_document() {
    let serv = RusDbServ;
    let name = serv.sanitize_collection("users").unwrap();
    assert_eq!(name, "users");
    let mut col = Collection::new();
    let recs = serv
        .insert(&mut col, &vec![bytes_of(vec![("name", Bson::String("a".to_string()))])], false)
        .unwrap();
    assert_eq!(recs.len(), 1);
    assert!(recs[0].document.is_none());
    let got = serv.get(&col, &id_text(recs[0].id)).unwrap().unwrap();
    assert_eq!(field(&got, "name"), Some(value(Bson::String("a".to_string()))));
    assert!(field(&got, "_id").is_some());
}

#[test]
fn insert_returns_documents_when_asked() {
    let serv = RusDbServ;
    let mut col = Collection::new();
    let recs = serv.insert(&mut col, &vec![bytes_of(vec![("k", Bson::Int32(3))])], true).unwrap();
    let d = recs[0].document.as_ref().unwrap();
    assert_eq!(field(d, "k"), Some(value(Bson::Int32(3))));
    assert!(field(d, "_id").is_some());
}

#[test]
fn update_with_limit_touches_one() {
    let serv = RusDbServ;
    let mut col = Collection::new();
    serv.insert(
        &mut col,
        &vec![bytes_of(vec![("x", Bson::Int32(1))]), bytes_of(vec![("x", Bson::Int32(2))])],
        false,
    )
    .unwrap();
    let filter = Document::new();
    let updates = doc_of(vec![("y", Bson::Boolean(true))]);
    let out = serv.update(&mut col, &filter, &updates, Some(1)).unwrap();
    assert_eq!(out.len(), 1);
    let all = serv.find(&col, None, None);
    assert_eq!(all.len(), 2);
    let with_y = all.iter().filter(|d| field(d, "y") == Some(value(Bson::Boolean(true)))).count();
    let without_y = all.iter().filter(|d| field(d, "y").is_none()).count();
    assert_eq!(with_y, 1);
    assert_eq!(without_y, 1);
}

#[test]
fn remove_then_find_nothing() {
    let serv = RusDbServ;
    let mut col = Collection::new();
    serv.insert(
        &mut col,
        &vec![bytes_of(vec![("x", Bson::Int32(1))]), bytes_of(vec![("x", Bson::Int32(2))])],
        false,
    )
    .unwrap();
    let filter = doc_of(vec![("x", Bson::Int32(1))]);
    assert_eq!(serv.remove(&mut col, &filter, None), 1);
    assert_eq!(serv.find(&col, Some(&filter), None).len(), 0);
    assert_eq!(col.len(), 1);
}

#[test]
fn empty_insert_is_refused() {
    let serv = RusDbServ;
    let mut col = Collection::new();
    assert!(matches!(serv.insert(&mut col, &vec![], false), Err(DbError::InvalidArgument)));
    assert!(matches!(serv.insert(&mut col, &vec![], true), Err(DbError::InvalidArgument)));
    assert_eq!(col.len(), 0);
}

#[test]
fn undecodable_documents_are_skipped() {
    let serv = RusDbServ;
    let mut col = Collection::new();
    let recs = serv
        .insert(&mut col, &vec![vec![1, 2, 3], bytes_of(vec![("a", Bson::Int32(1))])], false)
        .unwrap();
    assert_eq!(recs.len(), 1);
    assert_eq!(col.len(), 1);
}

#[test]
fn colliding_identity_replaces() {
    let serv = RusDbServ;
    let mut col = Collection::new();
    let id = uuid::Uuid::from_u128(0x1234_5678_9abc_def0_1234_5678_9abc_def0);
    let id_bson = bson::to_bson(&id).unwrap();
    let r1 = serv.insert(&mut col, &vec![bytes_of(vec![("_id", id_bson.clone()), ("v", Bson::Int32(1))])], false).unwrap();
    let r2 = serv.insert(&mut col, &vec![bytes_of(vec![("_id", id_bson), ("v", Bson::Int32(2))])], false).unwrap();
    assert_eq!(r1[0].id, id.as_u128());
    assert_eq!(r2[0].id, id.as_u128());
    assert_eq!(col.len(), 1);
    let got = serv.get(&col, &id.to_string()).unwrap().unwrap();
    assert_eq!(field(&got, "v"), Some(value(Bson::Int32(2))));
}

#[test]
fn unreadable_identity_gets_a_fresh_one() {
    let serv = RusDbServ;
    let mut col = Collection::new();
    let recs = serv
        .insert(&mut col, &vec![bytes_of(vec![("_id", Bson::String("nope".to_string()))])], true)
        .unwrap();
    let d = recs[0].document.as_ref().unwrap();
    assert_ne!(field(d, "_id"), Some(value(Bson::String("nope".to_string()))));
    assert!(serv.get(&col, &id_text(recs[0].id)).unwrap().is_some());
}

#[test]
fn filter_is_a_conjunction() {
    let serv = RusDbServ;
    let mut col = Collection::new();
    serv.insert(
        &mut col,
        &vec![
            bytes_of(vec![("a", Bson::Int32(1)), ("b", Bson::String("x".to_string()))]),
            bytes_of(vec![("a", Bson::Int32(1))]),
            bytes_of(vec![("b", Bson::String("x".to_string()))]),
            bytes_of(vec![("a", Bson::Int32(1)), ("b", Bson::String("y".to_string()))]),
            bytes_of(vec![("a", Bson::Int64(1)), ("b", Bson::String("x".to_string()))]),
        ],
        false,
    )
    .unwrap();
    let filter = doc_of(vec![("a", Bson::Int32(1)), ("b", Bson::String("x".to_string()))]);
    assert_eq!(serv.find(&col, Some(&filter), None).len(), 1);
    let updates = doc_of(vec![("c", Bson::Int32(9))]);
    assert_eq!(serv.update(&mut col, &filter, &updates, None).unwrap().len(), 1);
    assert_eq!(serv.remove(&mut col, &filter, None), 1);
    assert_eq!(col.len(), 4);
}

#[test]
fn update_keeps_identity() {
    let serv = RusDbServ;
    let mut col = Collection::new();
    let recs = serv.insert(&mut col, &vec![bytes_of(vec![("x", Bson::Int32(1))])], true).unwrap();
    let before = field(recs[0].document.as_ref().unwrap(), "_id");
    let other = bson::to_bson(&uuid::Uuid::from_u128(7)).unwrap();
    let updates = doc_of(vec![("_id", other), ("x", Bson::Int32(5))]);
    let out = serv.update(&mut col, &Document::new(), &updates, None).unwrap();
    assert_eq!(out.len(), 1);
    assert_eq!(field(&out[0], "_id"), before);
    assert_eq!(field(&out[0], "x"), Some(value(Bson::Int32(5))));
    let got = serv.get(&col, &id_text(recs[0].id)).unwrap().unwrap();
    assert_eq!(field(&got, "_id"), before);
}

#[test]
fn empty_updates_are_refused() {
    let serv = RusDbServ;
    let mut col = Collection::new();
    serv.insert(&mut col, &vec![bytes_of(vec![("x", Bson::Int32(1))])], false).unwrap();
    assert!(matches!(
        serv.update(&mut col, &Document::new(), &Document::new(), None),
        Err(DbError::InvalidArgument)
    ));
}

#[test]
fn limit_caps_results() {
    let serv = RusDbServ;
    let mut col = Collection::new();
    let docs: Vec<Vec<u8>> = (0..5).map(|i| bytes_of(vec![("n", Bson::Int32(i)), ("t", Bson::Boolean(true))])).collect();
    serv.insert(&mut col, &docs, false).unwrap();
    let filter = doc_of(vec![("t", Bson::Boolean(true))]);
    assert_eq!(serv.find(&col, Some(&filter), Some(3)).len(), 3);
    assert_eq!(serv.find(&col, Some(&filter), Some(9)).len(), 5);
    assert_eq!(serv.find(&col, Some(&filter), Some(0)).len(), 0);
    assert_eq!(serv.find(&col, Some(&filter), None).len(), 5);
    let updates = doc_of(vec![("u", Bson::Int32(1))]);
    assert_eq!(serv.update(&mut col, &filter, &updates, Some(2)).unwrap().len(), 2);
    assert_eq!(serv.remove(&mut col, &filter, Some(4)), 4);
    assert_eq!(col.len(), 1);
}

#[test]
fn find_scans_in_identity_order() {
    let serv = RusDbServ;
    let mut col = Collection::new();
    let hi = bson::to_bson(&uuid::Uuid::from_u128(200)).unwrap();
    let lo = bson::to_bson(&uuid::Uuid::from_u128(100)).unwrap();
    serv.insert(
        &mut col,
        &vec![bytes_of(vec![("_id", hi), ("n", Bson::Int32(2))]), bytes_of(vec![("_id", lo), ("n", Bson::Int32(1))])],
        false,
    )
    .unwrap();
    let first = serv.find(&col, None, Some(1));
    assert_eq!(field(&first[0], "n"), Some(value(Bson::Int32(1))));
}

#[test]
fn get_refuses_malformed_identity() {
    let serv = RusDbServ;
    let col = Collection::new();
    assert!(matches!(serv.get(&col, "not-an-id"), Err(DbError::InvalidArgument)));
    assert!(matches!(serv.get(&col, &id_text(42)), Ok(None)));
}

#[test]
fn stored_form_round_trips() {
    let serv = RusDbServ;
    let mut col = Collection::new();
    serv.insert(
        &mut col,
        &vec![
            bytes_of(vec![("x", Bson::Int32(1)), ("s", Bson::String("q".to_string()))]),
            bytes_of(vec![("x", Bson::Int32(2))]),
        ],
        false,
    )
    .unwrap();
    let bytes = encode_collection(&col).unwrap();
    let back = decode_collection(&bytes).unwrap();
    assert_eq!(back.len(), 2);
    for (a, b) in col.records.iter().zip(back.records.iter()) {
        assert_eq!(a.id, b.id);
        assert_eq!(a.doc.fields.len(), b.doc.fields.len());
        for (fa, fb) in a.doc.fields.iter().zip(b.doc.fields.iter()) {
            assert_eq!(fa.key, fb.key);
            assert_eq!(fa.value, fb.value);
        }
    }
    let stored: bson::Document = bson::from_slice(&bytes).unwrap();
    assert!(stored.keys().all(|k| uuid::Uuid::parse_str(k).is_ok() && k.len() == 36));
}

#[test]
fn empty_collection_round_trips() {
    let bytes = encode_collection(&Collection::new()).unwrap();
    assert_eq!(decode_collection(&bytes).unwrap().len(), 0);
}

#[test]
fn corrupt_stored_form_is_an_error() {
    assert!(matches!(decode_collection(&[9, 9, 9]), Err(DbError::Internal)));
    let not_ids = bytes_of(vec![("zz", Bson::Document(bson::Document::new()))]);
    assert!(matches!(decode_collection(&not_ids), Err(DbError::Internal)));
}

#[test]
fn nested_documents_compare_by_content() {
    let serv = RusDbServ;
    let mut col = Collection::new();
    let mut inner = bson::Document::new();
    inner.insert("a", Bson::Int32(1));
    inner.insert("b", Bson::Int32(2));
    let mut turned = bson::Document::new();
    turned.insert("b", Bson::Int32(2));
    turned.insert("a", Bson::Int32(1));
    serv.insert(&mut col, &vec![bytes_of(vec![("n", Bson::Document(inner))])], false).unwrap();
    let filter = doc_of(vec![("n", Bson::Document(turned))]);
    assert_eq!(serv.find(&col, Some(&filter), None).len(), 1);
    let other = doc_of(vec![("n", Bson::Int32(1))]);
    assert_eq!(serv.find(&col, Some(&other), None).len(), 0);
}

#[test]
fn later_duplicate_in_one_call_stays() {
    let serv = RusDbServ;
    let mut col = Collection::new();
    let id = bson::to_bson(&uuid::Uuid::from_u128(5)).unwrap();
    let recs = serv
        .insert(
            &mut col,
            &vec![
                bytes_of(vec![("_id", id.clone()), ("v", Bson::Int32(1))]),
                bytes_of(vec![("_id", id), ("v", Bson::Int32(2))]),
            ],
            false,
        )
        .unwrap();
    assert_eq!(recs.len(), 2);
    assert_eq!(recs[0].id, 5);
    assert_eq!(recs[1].id, 5);
    assert_eq!(col.len(), 1);
    let got = col.get(5).unwrap();
    assert_eq!(field(got, "v"), Some(value(Bson::Int32(2))));
}

#[test]
fn identities_and_errors_before_loading() {
    let serv = RusDbServ;
    assert!(matches!(serv.check_identity("bad"), Err(DbError::InvalidArgument)));
    let text = rusdb::identity::identity_string(0xabc);
    assert_eq!(text.len(), 36);
    assert_eq!(text, uuid::Uuid::from_u128(0xabc).to_string());
    assert_eq!(text, "00000000-0000-0000-0000-000000000abc");
    assert_eq!(serv.check_identity(&text), Ok(0xabc));
    assert_eq!(rusdb::service::load_failure(rusdb::service::Operation::Insert), DbError::NotFound);
    assert_eq!(rusdb::service::load_failure(rusdb::service::Operation::Find), DbError::Internal);
    assert_eq!(rusdb::service::load_failure(rusdb::service::Operation::Get), DbError::Internal);
}

#[test]
fn single_document_encodes() {
    let d = doc_of(vec![("name", Bson::String("a".to_string())), ("n", Bson::Int32(4))]);
    let bytes = rusdb::persist::encode_document(&d).unwrap();
    let back: bson::Document = bson::from_slice(&bytes).unwrap();
    assert_eq!(back.get_str("name").unwrap(), "a");
    assert_eq!(back.get_i32("n").unwrap(), 4);
    let keys: Vec<&String> = back.keys().collect();
    assert_eq!(keys, vec!["name", "n"]);
}
