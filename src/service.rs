//! The five operations as a client asks for them: argument checks, identity
//! assignment, and the calls into a collection.
use vstd::prelude::*;
use crate::collection::{Collection, cap, found, has_id, holds, removed, updated, updated_found};
use crate::document::{Document, FieldView, bson_fields, decode_document, has_key, id_field_name, id_key, set_field};
use crate::identity::{bson_identity, bson_identity_value, identity_of_value, new_identity, parse_identity, uuid_parsed, value_of_identity};

verus! {

/// Why an operation was refused.
#[derive(Debug, Clone, Copy, PartialEq, Eq, Structural)]
pub enum DbError {
    /// The caller's arguments are unusable.
    InvalidArgument,
    /// The collection could not be materialised.
    NotFound,
    /// The store failed on its side.
    Internal,
}

/// The operations a client can ask for.
#[derive(Debug, Clone, Copy, PartialEq, Eq, Structural)]
pub enum Operation {
    Insert,
    Update,
    Remove,
    Find,
    Get,
}

/// The error reported when the named collection cannot be loaded: an insert
/// could not materialise its collection, so it is not found; for every
/// other operation the store failed on its side.
pub fn load_failure(op: Operation) -> (r: DbError)
    ensures
        op == Operation::Insert ==> r == DbError::NotFound,
        op != Operation::Insert ==> r == DbError::Internal,
{
    match op {
        Operation::Insert => DbError::NotFound,
        _ => DbError::Internal,
    }
}

/// One stored document of an insert: its final identity, and the document
/// itself when the caller asked for it.
pub struct Inserted {
    pub id: u128,
    pub document: Option<Document>,
}

/// The entry point of the operations.
#[derive(Debug, Default)]
pub struct RusDbServ;

/// A collection name is usable when it holds no `.`, `/` or `\`.
pub open spec fn name_usable(s: Seq<char>) -> bool {
    forall|i: int| 0 <= i < s.len() ==> #[trigger] s[i] != '.' && s[i] != '/' && s[i] != '\\'
}

/// What `str::to_lowercase` makes of a text.
pub uninterp spec fn lower_of(s: Seq<char>) -> Seq<char>;

/// Relies on `str::to_lowercase`: the result depends on the characters alone.
#[verifier::external_body]
fn lowercase(s: &str) -> (r: String)
    ensures
        r@ == lower_of(s@),
{
    s.to_lowercase()
}

/// The documents that `docs` decode to, in order, skipping those that do
/// not decode.
pub open spec fn decodable(docs: Seq<Vec<u8>>) -> Seq<Seq<FieldView>>
    decreases docs.len(),
{
    if docs.len() == 0 {
        seq![]
    } else {
        match bson_fields(docs.last()@) {
            Some(d) => decodable(docs.drop_last()).push(d),
            None => decodable(docs.drop_last()),
        }
    }
}

/// The identity a document carries, when its identity field reads as one.
pub open spec fn carried_identity(d: Seq<FieldView>) -> Option<u128> {
    if has_key(d, id_key()) {
        bson_identity(d[crate::document::key_index(d, id_key())].1)
    } else {
        None
    }
}

/// The document an insert stores for decoded document `d` under `id`: `d`
/// itself when it carries an identity, else `d` with `id` written into its
/// identity field.
pub open spec fn stored_doc(d: Seq<FieldView>, id: u128) -> Seq<FieldView> {
    match carried_identity(d) {
        Some(_) => d,
        None => set_field(d, id_key(), bson_identity_value(id).unwrap()),
    }
}

/// What an insert made of decoded document `d`: it keeps the identity it
/// carries, and `returned`, when the caller asked for it, is what was stored.
pub open spec fn inserted_as(d: Seq<FieldView>, id: u128, returned: Option<Seq<FieldView>>) -> bool {
    &&& carried_identity(d) is Some ==> id == carried_identity(d).unwrap()
    &&& returned is Some ==> returned.unwrap() == stored_doc(d, id)
}

/// The document that the last of `recs` with identity `k` stored, where
/// `decs[i]` is the decoded document of `recs[i]`; `None` when no record has
/// that identity.
pub open spec fn stored_under(recs: Seq<Inserted>, decs: Seq<Seq<FieldView>>, k: u128) -> Option<Seq<FieldView>>
    decreases recs.len(),
{
    if recs.len() == 0 {
        None
    } else if recs.last().id == k {
        Some(stored_doc(decs[recs.len() - 1], k))
    } else {
        stored_under(recs.drop_last(), decs, k)
    }
}

proof fn lemma_stored_under_extend(recs: Seq<Inserted>, decs: Seq<Seq<FieldView>>, x: Seq<FieldView>, k: u128)
    requires
        recs.len() <= decs.len(),
    ensures
        stored_under(recs, decs.push(x), k) == stored_under(recs, decs, k),
    decreases recs.len(),
{
    if recs.len() > 0 {
        lemma_stored_under_extend(recs.drop_last(), decs, x, k);
    }
}

impl Inserted {
    pub open spec fn returned(&self) -> Option<Seq<FieldView>> {
        match &self.document {
            Some(d) => Some(d@),
            None => None,
        }
    }
}

/// Accepts a lowered name when it holds no `.`, `/` or `\`.
pub fn check_lowered_name(colname: String) -> (r: Option<String>)
    ensures
        r == (if name_usable(colname@) { Some(colname) } else { None::<String> }),
{
    let n = colname.as_str().unicode_len();
    let mut i: usize = 0;
    while i < n
        invariant
            n == colname@.len(),
            i <= n,
            forall|j: int| 0 <= j < i ==> #[trigger] colname@[j] != '.' && colname@[j] != '/' && colname@[j] != '\\',
        decreases n - i,
    {
        let c = colname.as_str().get_char(i);
        if c == '.' || c == '/' || c == '\\' {
            assert(!name_usable(colname@)) by {
                assert(colname@[i as int] == c);
            }
            return None;
        }
        i = i + 1;
    }
    Some(colname)
}

/// The identity field's value in `doc`, when there is one.
fn identity_field(doc: &Document) -> (r: Option<&Vec<u8>>)
    requires
        doc.wf(),
    ensures
        match r {
            Some(v) => has_key(doc@, id_key()) && v@ == doc@[crate::document::key_index(doc@, id_key())].1,
            None => !has_key(doc@, id_key()),
        },
{
    let key = id_field_name();
    let r = doc.get(&key);
    proof {
        if let Some(v) = r {
            let x = crate::document::key_index(doc@, id_key());
            let i = choose|i: int| 0 <= i < doc@.len() && #[trigger] doc@[i] == (id_key(), v@);
            assert(doc@[i].0 == id_key());
            assert(doc@[x].0 == id_key());
            assert(i == x);
        }
    }
    r
}

/// Gives `doc` its final identity: the one it carries when there is one
/// (`carried`), else `fresh`, written into its identity field as
/// `fresh_value`.
pub fn settle_identity(doc: &mut Document, carried: Option<u128>, fresh: u128, fresh_value: Vec<u8>) -> (r: u128)
    requires
        old(doc).wf(),
    ensures
        final(doc).wf(),
        carried is Some ==> r == carried.unwrap() && final(doc)@ == old(doc)@,
        carried is None ==> r == fresh && final(doc)@ == set_field(old(doc)@, id_key(), fresh_value@),
{
    match carried {
        Some(id) => id,
        None => {
            doc.set(id_field_name(), fresh_value);
            fresh
        },
    }
}

impl RusDbServ {
    /// Normalises a collection name to lower case, and refuses it when it
    /// then holds `.`, `/` or `\`.
    pub fn sanitize_collection(&self, name: &str) -> (r: Option<String>)
        ensures
            match r {
                Some(s) => name_usable(lower_of(name@)) && s@ == lower_of(name@),
                None => !name_usable(lower_of(name@)),
            },
    {
        check_lowered_name(lowercase(name))
    }

    /// Decodes and stores each candidate document, skipping those that do
    /// not decode. A document keeps the identity its `_id` field carries;
    /// one without a readable identity gets a fresh random one, written into
    /// its `_id` field. A stored document replaces the one already held
    /// under its identity; of two in one call, the later stays.
    pub fn insert(&self, col: &mut Collection, documents: &Vec<Vec<u8>>, return_old: bool) -> (r: Result<Vec<Inserted>, DbError>)
        requires
            old(col).wf(),
        ensures
            final(col).wf(),
            r is Ok <==> documents@.len() > 0,
            documents@.len() == 0 ==> r == Err::<Vec<Inserted>, DbError>(DbError::InvalidArgument) && final(col)@ == old(col)@,
            match r {
                Ok(recs) => {
                    let decs = decodable(documents@);
                    &&& recs@.len() == decs.len()
                    &&& forall|i: int| 0 <= i < recs@.len() ==> inserted_as(decs[i], #[trigger] recs@[i].id, recs@[i].returned())
                    &&& forall|i: int| 0 <= i < recs@.len() ==> (#[trigger] recs@[i].document is Some) == return_old
                    &&& forall|k: u128, d: Seq<FieldView>| #[trigger] holds(final(col)@, k, d) <==> match stored_under(recs@, decs, k) {
                        Some(x) => d == x,
                        None => holds(old(col)@, k, d),
                    }
                },
                Err(_) => true,
            },
    {
        if documents.len() == 0 {
            return Err(DbError::InvalidArgument);
        }
        let ghost start = col@;
        let mut recs: Vec<Inserted> = Vec::new();
        let mut i: usize = 0;
        while i < documents.len()
            invariant
                col.wf(),
                i <= documents@.len(),
                recs@.len() == decodable(documents@.take(i as int)).len(),
                forall|j: int| 0 <= j < recs@.len()
                    ==> inserted_as(decodable(documents@.take(i as int))[j], #[trigger] recs@[j].id, recs@[j].returned()),
                forall|j: int| 0 <= j < recs@.len() ==> (#[trigger] recs@[j].document is Some) == return_old,
                forall|k: u128, d: Seq<FieldView>| #[trigger] holds(col@, k, d) <==> match stored_under(recs@, decodable(documents@.take(i as int)), k) {
                    Some(x) => d == x,
                    None => holds(start, k, d),
                },
            decreases documents@.len() - i,
        {
            assert(documents@.take(i + 1).drop_last() =~= documents@.take(i as int));
            assert(documents@.take(i + 1).last() == documents@[i as int]);
            let ghost dec0 = decodable(documents@.take(i as int));
            if let Some(mut doc) = decode_document(documents[i].as_slice()) {
                let ghost decoded = doc@;
                let carried = match identity_field(&doc) {
                    Some(v) => identity_of_value(v),
                    None => None,
                };
                assert(carried == carried_identity(decoded));
                let id = match carried {
                    Some(x) => x,
                    None => {
                        let fresh = new_identity();
                        let fresh_value = value_of_identity(fresh).unwrap();
                        settle_identity(&mut doc, None, fresh, fresh_value)
                    },
                };
                assert(doc@ == stored_doc(decoded, id));
                let document = if return_old {
                    Some(doc.copy())
                } else {
                    None
                };
                let ghost before = col@;
                let ghost old_recs = recs@;
                let ghost dv = doc@;
                col.insert(id, doc);
                recs.push(Inserted { id, document });
                proof {
                    let dec1 = decodable(documents@.take(i + 1));
                    assert(dec1 == dec0.push(decoded));
                    assert(recs@.drop_last() =~= old_recs);
                    assert forall|j: int| 0 <= j < recs@.len()
                        implies inserted_as(dec1[j], #[trigger] recs@[j].id, recs@[j].returned()) by {
                        if j < old_recs.len() {
                            assert(recs@[j] == old_recs[j]);
                            assert(dec1[j] == dec0[j]);
                        }
                    }
                    assert forall|k: u128, d: Seq<FieldView>| #[trigger] holds(col@, k, d) <==> match stored_under(recs@, dec1, k) {
                        Some(x) => d == x,
                        None => holds(start, k, d),
                    } by {
                        if k != id {
                            lemma_stored_under_extend(old_recs, dec0, decoded, k);
                            assert(stored_under(recs@, dec1, k) == stored_under(old_recs, dec1, k));
                            assert(holds(col@, k, d) == holds(before, k, d));
                        } else {
                            assert(stored_under(recs@, dec1, k) == Some(stored_doc(dec1[old_recs.len() as int], id)));
                            assert(holds(col@, k, d) == (d == dv));
                        }
                    }
                }
            }
            i = i + 1;
        }
        assert(documents@.take(documents@.len() as int) =~= documents@);
        Ok(recs)
    }

    /// The identity that `id` spells; a text that spells none is refused.
    pub fn check_identity(&self, id: &str) -> (r: Result<u128, DbError>)
        ensures
            match uuid_parsed(id@) {
                Some(u) => r == Ok::<u128, DbError>(u),
                None => r == Err::<u128, DbError>(DbError::InvalidArgument),
            },
    {
        match parse_identity(id) {
            Some(u) => Ok(u),
            None => Err(DbError::InvalidArgument),
        }
    }

    /// The document stored under the identity that `id` spells, if any.
    /// A text that spells no identity is refused.
    pub fn get(&self, col: &Collection, id: &str) -> (r: Result<Option<Document>, DbError>)
        requires
            col.wf(),
        ensures
            uuid_parsed(id@) is None <==> r == Err::<Option<Document>, DbError>(DbError::InvalidArgument),
            uuid_parsed(id@) is Some ==> r is Ok,
            match r {
                Ok(Some(d)) => holds(col@, uuid_parsed(id@).unwrap(), d@),
                Ok(None) => !has_id(col@, uuid_parsed(id@).unwrap()),
                Err(_) => true,
            },
    {
        match parse_identity(id) {
            None => Err(DbError::InvalidArgument),
            Some(uid) => match col.get(uid) {
                Some(d) => Ok(Some(d.copy())),
                None => Ok(None),
            },
        }
    }

    /// Merges `updates` into the matching documents; an empty `updates` is
    /// refused before the collection is scanned.
    pub fn update(&self, col: &mut Collection, filter: &Document, updates: &Document, limit: Option<u32>) -> (r: Result<Vec<Document>, DbError>)
        requires
            old(col).wf(),
        ensures
            final(col).wf(),
            updates@.len() == 0 ==> r == Err::<Vec<Document>, DbError>(DbError::InvalidArgument) && final(col)@ == old(col)@,
            match r {
                Ok(docs) => updates@.len() > 0
                    && final(col)@ == updated(old(col)@, filter@, updates@, cap(limit, old(col)@.len()))
                    && docs@.map_values(|d: Document| d@) == updated_found(old(col)@, filter@, updates@, cap(limit, old(col)@.len())),
                Err(_) => updates@.len() == 0,
            },
    {
        if updates.len() == 0 {
            return Err(DbError::InvalidArgument);
        }
        Ok(col.update(filter, updates, limit))
    }

    /// Removes the matching documents; returns how many went.
    pub fn remove(&self, col: &mut Collection, filter: &Document, limit: Option<u32>) -> (r: usize)
        requires
            old(col).wf(),
        ensures
            final(col).wf(),
            final(col)@ == removed(old(col)@, filter@, cap(limit, old(col)@.len())),
            r == found(old(col)@, filter@, cap(limit, old(col)@.len())).len(),
    {
        col.remove(filter, limit)
    }

    /// The matching documents; without a filter, every document.
    pub fn find(&self, col: &Collection, filter: Option<&Document>, limit: Option<u32>) -> (r: Vec<Document>)
        requires
            col.wf(),
        ensures
            r@.map_values(|d: Document| d@) == found(
                col@,
                match filter {
                    Some(f) => f@,
                    None => Seq::<FieldView>::empty(),
                },
                cap(limit, col@.len()),
            ),
    {
        match filter {
            Some(f) => col.find(f, limit),
            None => {
                let all = Document::new();
                col.find(&all, limit)
            },
        }
    }
}

} // verus!
