//! The stored form of a collection: one BSON document that maps each
//! identity's hyphenated text to the document stored under it.
use vstd::prelude::*;
use crate::collection::{Collection, RecordView, has_id, holds};
use crate::document::{Document, FieldView, bson_fields, decode_document};
use crate::identity::{identity_text, parse_identity, uuid_parsed, uuid_text};
use crate::service::DbError;

verus! {

/// The bytes `bson::to_vec` gives for a document, or `None` where it fails.
pub uninterp spec fn bson_encoding(d: Seq<FieldView>) -> Option<Seq<u8>>;

/// The bytes `bson::to_vec` gives for a document that maps each name to the
/// embedded document whose bytes follow it, or `None` where it fails.
pub uninterp spec fn bson_framed(entries: Seq<(Seq<char>, Seq<u8>)>) -> Option<Seq<u8>>;

/// The names and embedded documents' bytes that `bson::from_slice` reads
/// from a document whose every value is a document; `None` otherwise.
pub uninterp spec fn bson_unframed(b: Seq<u8>) -> Option<Seq<(Seq<char>, Seq<u8>)>>;

/// An entry as seen in contracts: a name and the bytes stored under it.
pub struct Entry {
    pub name: String,
    pub bytes: Vec<u8>,
}

impl View for Entry {
    type V = (Seq<char>, Seq<u8>);

    open spec fn view(&self) -> (Seq<char>, Seq<u8>) {
        (self.name@, self.bytes@)
    }
}

/// Relies on `bson::from_slice` to read each encoded value back, on
/// `bson::Document::insert`, and on `bson::to_vec`.
#[verifier::external_body]
fn encode_bson(d: &Document) -> (r: Option<Vec<u8>>)
    ensures
        match r {
            Some(b) => bson_encoding(d@) == Some(b@),
            None => bson_encoding(d@) is None,
        },
{
    let mut out = bson::Document::new();
    for f in d.fields.iter() {
        let one: bson::Document = bson::from_slice(&f.value).ok()?;
        out.insert(f.key.clone(), one.get("")?.clone());
    }
    bson::to_vec(&out).ok()
}

/// Relies on `bson::from_slice` to read each embedded document, on
/// `bson::Document::insert`, and on `bson::to_vec`.
#[verifier::external_body]
fn frame(entries: &Vec<Entry>) -> (r: Option<Vec<u8>>)
    ensures
        match r {
            Some(b) => bson_framed(entries@.map_values(|e: Entry| e@)) == Some(b@),
            None => bson_framed(entries@.map_values(|e: Entry| e@)) is None,
        },
{
    let mut out = bson::Document::new();
    for e in entries.iter() {
        let d: bson::Document = bson::from_slice(&e.bytes).ok()?;
        out.insert(e.name.clone(), d);
    }
    bson::to_vec(&out).ok()
}

/// Relies on `bson::from_slice` to read the outer document, and on
/// `bson::to_vec` to give each embedded document's bytes.
#[verifier::external_body]
fn unframe(b: &[u8]) -> (r: Option<Vec<Entry>>)
    ensures
        match r {
            Some(es) => bson_unframed(b@) == Some(es@.map_values(|e: Entry| e@)),
            None => bson_unframed(b@) is None,
        },
{
    let d: bson::Document = bson::from_slice(b).ok()?;
    let mut out: Vec<Entry> = Vec::new();
    for (name, v) in d {
        match v {
            bson::Bson::Document(x) => out.push(Entry { name, bytes: bson::to_vec(&x).ok()? }),
            _ => return None,
        }
    }
    Some(out)
}

/// The BSON bytes of one document, as responses carry it; `None` when it
/// cannot be encoded.
pub fn encode_document(d: &Document) -> (r: Option<Vec<u8>>)
    ensures
        match r {
            Some(b) => bson_encoding(d@) == Some(b@),
            None => bson_encoding(d@) is None,
        },
{
    encode_bson(d)
}

/// The entries of the stored form of `s`, or `None` when a document of it
/// cannot be encoded.
pub open spec fn stored_entries(s: Seq<RecordView>) -> Option<Seq<(Seq<char>, Seq<u8>)>>
    decreases s.len(),
{
    if s.len() == 0 {
        Some(seq![])
    } else {
        match (stored_entries(s.drop_last()), bson_encoding(s.last().1)) {
            (Some(p), Some(b)) => Some(p.push((uuid_text(s.last().0), b))),
            _ => None,
        }
    }
}

/// The stored form of `s`.
pub open spec fn stored_form(s: Seq<RecordView>) -> Option<Seq<u8>> {
    match stored_entries(s) {
        Some(es) => bson_framed(es),
        None => None,
    }
}

/// The stored form of a collection; `None` when it cannot be encoded.
pub fn encode_collection(col: &Collection) -> (r: Option<Vec<u8>>)
    ensures
        match r {
            Some(b) => stored_form(col@) == Some(b@),
            None => stored_form(col@) is None,
        },
{
    let mut entries: Vec<Entry> = Vec::new();
    let mut i: usize = 0;
    while i < col.records.len()
        invariant
            i <= col@.len(),
            stored_entries(col@.take(i as int)) == Some(entries@.map_values(|e: Entry| e@)),
        decreases col@.len() - i,
    {
        let rec = &col.records[i];
        assert(col@.take(i + 1).drop_last() =~= col@.take(i as int));
        assert(col@.take(i + 1).last() == rec@);
        let ghost before = entries@.map_values(|e: Entry| e@);
        match encode_bson(&rec.doc) {
            Some(bytes) => {
                let name = identity_text(rec.id);
                entries.push(Entry { name, bytes });
                assert(entries@.map_values(|e: Entry| e@) =~= before.push((uuid_text(rec.id), bytes@)));
            },
            None => {
                proof {
                    lemma_stored_entries_fail(col@, i as int + 1);
                }
                return None;
            },
        }
        i = i + 1;
    }
    assert(col@.take(col@.len() as int) =~= col@);
    frame(&entries)
}

proof fn lemma_stored_entries_fail(s: Seq<RecordView>, k: int)
    requires
        0 <= k <= s.len(),
        stored_entries(s.take(k)) is None,
    ensures
        stored_entries(s) is None,
    decreases s.len() - k,
{
    if k < s.len() {
        assert(s.take(k + 1).drop_last() =~= s.take(k));
        lemma_stored_entries_fail(s, k + 1);
    } else {
        assert(s.take(k) =~= s);
    }
}

/// Every name of `es` reads as an identity and every bytes as a document.
pub open spec fn entries_readable(es: Seq<(Seq<char>, Seq<u8>)>) -> bool {
    forall|i: int| 0 <= i < es.len() ==> uuid_parsed(#[trigger] es[i].0) is Some && bson_fields(es[i].1) is Some
}

/// No two names of `es` read as the same identity.
pub open spec fn ids_distinct(es: Seq<(Seq<char>, Seq<u8>)>) -> bool {
    forall|i: int, j: int| 0 <= i < es.len() && 0 <= j < es.len() && i != j
        ==> #[trigger] uuid_parsed(es[i].0) != #[trigger] uuid_parsed(es[j].0)
}

/// Reads a collection back from its stored form. Bytes that are not such a
/// form, a name that is no identity, or a document that does not decode
/// make an `Internal` error: stored data is never taken for empty.
pub fn decode_collection(b: &[u8]) -> (r: Result<Collection, DbError>)
    ensures
        r is Ok <==> (bson_unframed(b@) is Some && entries_readable(bson_unframed(b@).unwrap())),
        r is Err ==> r == Err::<Collection, DbError>(DbError::Internal),
        match r {
            Ok(c) => {
                let es = bson_unframed(b@).unwrap();
                &&& c.wf()
                &&& forall|i: int| 0 <= i < es.len() ==> has_id(c@, uuid_parsed(#[trigger] es[i].0).unwrap())
                &&& forall|k: u128| has_id(c@, k) ==> exists|i: int| 0 <= i < es.len() && uuid_parsed(#[trigger] es[i].0) == Some(k)
                &&& ids_distinct(es) ==> forall|i: int| 0 <= i < es.len()
                    ==> holds(c@, uuid_parsed(#[trigger] es[i].0).unwrap(), bson_fields(es[i].1).unwrap())
            },
            Err(_) => true,
        },
{
    let entries = match unframe(b) {
        Some(es) => es,
        None => {
            return Err(DbError::Internal);
        },
    };
    let ghost es = entries@.map_values(|e: Entry| e@);
    let mut col = Collection::new();
    let mut i: usize = 0;
    while i < entries.len()
        invariant
            es == entries@.map_values(|e: Entry| e@),
            bson_unframed(b@) == Some(es),
            i <= entries.len(),
            col.wf(),
            forall|j: int| 0 <= j < i ==> uuid_parsed(#[trigger] es[j].0) is Some && bson_fields(es[j].1) is Some,
            forall|j: int| 0 <= j < i ==> has_id(col@, uuid_parsed(#[trigger] es[j].0).unwrap()),
            forall|k: u128| has_id(col@, k) ==> exists|j: int| 0 <= j < i && uuid_parsed(#[trigger] es[j].0) == Some(k),
            ids_distinct(es) ==> forall|j: int| 0 <= j < i
                ==> holds(col@, uuid_parsed(#[trigger] es[j].0).unwrap(), bson_fields(es[j].1).unwrap()),
        decreases entries.len() - i,
    {
        let e = &entries[i];
        assert(es[i as int] == e@);
        let id = match parse_identity(e.name.as_str()) {
            Some(id) => id,
            None => {
                assert(!entries_readable(es)) by {
                    assert(uuid_parsed(es[i as int].0) is None);
                }
                return Err(DbError::Internal);
            },
        };
        let doc = match decode_document(e.bytes.as_slice()) {
            Some(d) => d,
            None => {
                assert(!entries_readable(es)) by {
                    assert(bson_fields(es[i as int].1) is None);
                }
                return Err(DbError::Internal);
            },
        };
        let ghost before = col@;
        let ghost dv = doc@;
        col.insert(id, doc);
        proof {
            if ids_distinct(es) {
                assert forall|j: int| 0 <= j < i + 1
                    implies holds(col@, uuid_parsed(#[trigger] es[j].0).unwrap(), bson_fields(es[j].1).unwrap()) by {
                    if j < i {
                        assert(uuid_parsed(es[j].0) != uuid_parsed(es[i as int].0));
                        assert(holds(before, uuid_parsed(es[j].0).unwrap(), bson_fields(es[j].1).unwrap()));
                    }
                }
            }
            assert forall|j: int| 0 <= j < i + 1 implies has_id(col@, uuid_parsed(#[trigger] es[j].0).unwrap()) by {
                let k = uuid_parsed(es[j].0).unwrap();
                if k == id {
                    assert(crate::collection::holds(col@, id, dv));
                    let q = choose|q: int| 0 <= q < col@.len() && #[trigger] col@[q] == (id, dv);
                    assert(col@[q].0 == id);
                } else {
                    assert(has_id(before, k));
                    let m = choose|m: int| 0 <= m < before.len() && #[trigger] before[m].0 == k;
                    assert(crate::collection::holds(before, k, before[m].1));
                    assert(crate::collection::holds(col@, k, before[m].1));
                    let q = choose|q: int| 0 <= q < col@.len() && #[trigger] col@[q] == (k, before[m].1);
                    assert(col@[q].0 == k);
                }
            }
            assert forall|k: u128| has_id(col@, k) implies exists|j: int| 0 <= j < i + 1 && uuid_parsed(#[trigger] es[j].0) == Some(k) by {
                let q = choose|q: int| 0 <= q < col@.len() && #[trigger] col@[q].0 == k;
                assert(crate::collection::holds(col@, k, col@[q].1));
                if k == id {
                    assert(uuid_parsed(es[i as int].0) == Some(k));
                } else {
                    assert(crate::collection::holds(before, k, col@[q].1));
                    let m = choose|m: int| 0 <= m < before.len() && #[trigger] before[m] == (k, col@[q].1);
                    assert(before[m].0 == k);
                    assert(has_id(before, k));
                }
            }
        }
        i = i + 1;
    }
    Ok(col)
}

} // verus!
