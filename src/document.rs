//! Documents: ordered field-name to value mappings.
//!
//! A field's value is held as its BSON encoding (the bytes of the one-entry
//! document `{"": value}`); filters compare values as `bson` compares them
//! once read back, by type and content.
use vstd::prelude::*;

verus! {

/// The name of the identity field.
pub open spec fn id_key() -> Seq<char> {
    seq!['_', 'i', 'd']
}

/// A field as seen in contracts: its name and its encoded value.
pub type FieldView = (Seq<char>, Seq<u8>);

pub struct Field {
    pub key: String,
    pub value: Vec<u8>,
}

impl View for Field {
    type V = FieldView;

    open spec fn view(&self) -> FieldView {
        (self.key@, self.value@)
    }
}

pub struct Document {
    pub fields: Vec<Field>,
}

impl View for Document {
    type V = Seq<FieldView>;

    open spec fn view(&self) -> Seq<FieldView> {
        self.fields@.map_values(|f: Field| f@)
    }
}

/// No two fields of `d` share a name.
pub open spec fn keys_distinct(d: Seq<FieldView>) -> bool {
    forall|i: int, j: int|
        0 <= i < d.len() && 0 <= j < d.len() && i != j ==> #[trigger] d[i].0 != #[trigger] d[j].0
}

/// `d` has a field named `k`.
pub open spec fn has_key(d: Seq<FieldView>, k: Seq<char>) -> bool {
    exists|i: int| 0 <= i < d.len() && #[trigger] d[i].0 == k
}

/// `d` has a field named `k` whose value is `v`.
pub open spec fn has_field(d: Seq<FieldView>, k: Seq<char>, v: Seq<u8>) -> bool {
    exists|i: int| 0 <= i < d.len() && #[trigger] d[i] == (k, v)
}

/// Whether `bson` finds two encoded values equal: `Bson`'s `==` on the
/// values read back.
pub uninterp spec fn bson_equal(a: Seq<u8>, b: Seq<u8>) -> bool;

/// `d` has a field named `k` whose value `bson` finds equal to `v`.
pub open spec fn has_equal_field(d: Seq<FieldView>, k: Seq<char>, v: Seq<u8>) -> bool {
    exists|i: int| 0 <= i < d.len() && #[trigger] d[i].0 == k && bson_equal(d[i].1, v)
}

/// Every field of `filter` is present in `d` with an equal value; the empty
/// filter matches every document.
pub open spec fn matches_filter(d: Seq<FieldView>, filter: Seq<FieldView>) -> bool {
    forall|j: int| 0 <= j < filter.len() ==> has_equal_field(d, #[trigger] filter[j].0, filter[j].1)
}

/// Relies on `bson::from_slice` to read two encoded values back and on
/// `Bson`'s `==` to compare them; values that do not read back are unequal.
#[verifier::external_body]
fn values_equal(a: &Vec<u8>, b: &Vec<u8>) -> (r: bool)
    ensures
        r == bson_equal(a@, b@),
{
    match (bson::from_slice::<bson::Document>(a), bson::from_slice::<bson::Document>(b)) {
        (Ok(x), Ok(y)) => x.get("") == y.get(""),
        _ => false,
    }
}

/// The position of the field named `k` (meaningful when `has_key(d, k)`).
pub open spec fn key_index(d: Seq<FieldView>, k: Seq<char>) -> int {
    choose|i: int| 0 <= i < d.len() && #[trigger] d[i].0 == k
}

/// `d` with field `k` set to `v`: overwritten in place if present, appended
/// otherwise.
pub open spec fn set_field(d: Seq<FieldView>, k: Seq<char>, v: Seq<u8>) -> Seq<FieldView> {
    if has_key(d, k) {
        d.update(key_index(d, k), (k, v))
    } else {
        d.push((k, v))
    }
}

/// `d` with every field of `updates` but the identity field merged in, in order.
pub open spec fn merged(d: Seq<FieldView>, updates: Seq<FieldView>) -> Seq<FieldView>
    decreases updates.len(),
{
    if updates.len() == 0 {
        d
    } else {
        let prev = merged(d, updates.drop_last());
        let f = updates.last();
        if f.0 == id_key() {
            prev
        } else {
            set_field(prev, f.0, f.1)
        }
    }
}

pub proof fn lemma_set_field_keeps_other(d: Seq<FieldView>, k: Seq<char>, v: Seq<u8>, k2: Seq<char>, v2: Seq<u8>)
    requires
        keys_distinct(d),
        k != k2,
    ensures
        keys_distinct(set_field(d, k, v)),
        has_field(set_field(d, k, v), k2, v2) == has_field(d, k2, v2),
        has_key(set_field(d, k, v), k2) == has_key(d, k2),
{
    let r = set_field(d, k, v);
    if has_key(d, k) {
        let x = key_index(d, k);
        assert(r.len() == d.len());
        assert forall|i: int| 0 <= i < d.len() && i != x implies r[i] == d[i] by {}
        if has_field(d, k2, v2) {
            let i = choose|i: int| 0 <= i < d.len() && #[trigger] d[i] == (k2, v2);
            assert(r[i] == (k2, v2));
        }
        if has_field(r, k2, v2) {
            let i = choose|i: int| 0 <= i < r.len() && #[trigger] r[i] == (k2, v2);
            assert(d[i] == (k2, v2));
        }
        if has_key(d, k2) {
            let i = choose|i: int| 0 <= i < d.len() && #[trigger] d[i].0 == k2;
            assert(r[i].0 == k2);
        }
        if has_key(r, k2) {
            let i = choose|i: int| 0 <= i < r.len() && #[trigger] r[i].0 == k2;
            assert(d[i].0 == k2);
        }
    } else {
        assert forall|i: int| 0 <= i < d.len() implies r[i] == d[i] by {}
        if has_field(d, k2, v2) {
            let i = choose|i: int| 0 <= i < d.len() && #[trigger] d[i] == (k2, v2);
            assert(r[i] == (k2, v2));
        }
        if has_field(r, k2, v2) {
            let i = choose|i: int| 0 <= i < r.len() && #[trigger] r[i] == (k2, v2);
            assert(d[i] == (k2, v2));
        }
        if has_key(d, k2) {
            let i = choose|i: int| 0 <= i < d.len() && #[trigger] d[i].0 == k2;
            assert(r[i].0 == k2);
        }
        if has_key(r, k2) {
            let i = choose|i: int| 0 <= i < r.len() && #[trigger] r[i].0 == k2;
            assert(d[i].0 == k2);
        }
        assert forall|i: int, j: int|
            0 <= i < r.len() && 0 <= j < r.len() && i != j implies #[trigger] r[i].0 != #[trigger] r[j].0 by {
            if i == d.len() {
                assert(d[j].0 == r[j].0);
            } else if j == d.len() {
                assert(d[i].0 == r[i].0);
            }
        }
    }
}

/// Merging never changes the identity field: a value it had stays, and a
/// document without one gains none.
pub proof fn lemma_merge_keeps_identity(d: Seq<FieldView>, updates: Seq<FieldView>, v: Seq<u8>)
    requires
        keys_distinct(d),
    ensures
        keys_distinct(merged(d, updates)),
        has_field(merged(d, updates), id_key(), v) == has_field(d, id_key(), v),
        has_key(merged(d, updates), id_key()) == has_key(d, id_key()),
    decreases updates.len(),
{
    if updates.len() > 0 {
        lemma_merge_keeps_identity(d, updates.drop_last(), v);
        let f = updates.last();
        if f.0 != id_key() {
            lemma_set_field_keeps_other(merged(d, updates.drop_last()), f.0, f.1, id_key(), v);
        }
    }
}

/// A copy of a byte vector.
pub fn copy_bytes(a: &Vec<u8>) -> (r: Vec<u8>)
    ensures
        r@ == a@,
{
    let mut r: Vec<u8> = Vec::with_capacity(a.len());
    let mut i: usize = 0;
    while i < a.len()
        invariant
            i <= a.len(),
            r@ =~= a@.take(i as int),
        decreases a.len() - i,
    {
        r.push(a[i]);
        i = i + 1;
        assert(r@ =~= a@.take(i as int));
    }
    assert(a@.take(a.len() as int) =~= a@);
    r
}

impl Field {
    pub fn copy(&self) -> (r: Field)
        ensures
            r@ == self@,
    {
        Field { key: self.key.clone(), value: copy_bytes(&self.value) }
    }
}

impl Document {
    /// The well-formedness of a document: field names are distinct.
    pub open spec fn wf(&self) -> bool {
        keys_distinct(self@)
    }

    /// The empty document.
    pub fn new() -> (r: Document)
        ensures
            r@ == Seq::<FieldView>::empty(),
            r.wf(),
    {
        Document { fields: Vec::new() }
    }

    pub fn len(&self) -> (r: usize)
        ensures
            r == self@.len(),
    {
        self.fields.len()
    }

    pub fn copy(&self) -> (r: Document)
        ensures
            r@ == self@,
    {
        let mut fields: Vec<Field> = Vec::with_capacity(self.fields.len());
        let mut i: usize = 0;
        while i < self.fields.len()
            invariant
                i <= self.fields.len(),
                fields.len() == i,
                forall|k: int| 0 <= k < i ==> #[trigger] fields@[k]@ == self@[k],
            decreases self.fields.len() - i,
        {
            let c = self.fields[i].copy();
            assert(c@ == self@[i as int]);
            fields.push(c);
            i = i + 1;
        }
        let r = Document { fields };
        assert(r@ =~= self@);
        r
    }

    /// The position of the field named `key`, if there is one.
    pub fn position(&self, key: &String) -> (r: Option<usize>)
        ensures
            match r {
                Some(i) => i < self@.len() && self@[i as int].0 == key@,
                None => !has_key(self@, key@),
            },
    {
        let mut i: usize = 0;
        while i < self.fields.len()
            invariant
                i <= self.fields.len(),
                forall|j: int| 0 <= j < i ==> self@[j].0 != key@,
            decreases self.fields.len() - i,
        {
            if self.fields[i].key == *key {
                return Some(i);
            }
            i = i + 1;
        }
        None
    }

    /// The encoded value of the field named `key`, if there is one.
    pub fn get(&self, key: &String) -> (r: Option<&Vec<u8>>)
        requires
            self.wf(),
        ensures
            match r {
                Some(v) => has_field(self@, key@, v@),
                None => !has_key(self@, key@),
            },
    {
        match self.position(key) {
            Some(i) => {
                assert(self@[i as int] == (key@, self.fields@[i as int].value@));
                Some(&self.fields[i].value)
            },
            None => None,
        }
    }

    /// Whether this document matches `filter`.
    pub fn matches(&self, filter: &Document) -> (r: bool)
        requires
            self.wf(),
        ensures
            r == matches_filter(self@, filter@),
    {
        let mut j: usize = 0;
        while j < filter.fields.len()
            invariant
                self.wf(),
                j <= filter.fields.len(),
                forall|m: int| 0 <= m < j ==> has_equal_field(self@, #[trigger] filter@[m].0, filter@[m].1),
            decreases filter.fields.len() - j,
        {
            let f = &filter.fields[j];
            assert(filter@[j as int] == f@);
            match self.position(&f.key) {
                None => {
                    proof {
                        if has_equal_field(self@, f.key@, f.value@) {
                            let i = choose|i: int| 0 <= i < self@.len() && #[trigger] self@[i].0 == f.key@ && bson_equal(self@[i].1, f.value@);
                            assert(self@[i].0 == f.key@);
                        }
                        assert(!has_equal_field(self@, filter@[j as int].0, filter@[j as int].1));
                    }
                    return false;
                },
                Some(i) => {
                    if !values_equal(&self.fields[i].value, &f.value) {
                        proof {
                            if has_equal_field(self@, f.key@, f.value@) {
                                let m = choose|m: int| 0 <= m < self@.len() && #[trigger] self@[m].0 == f.key@ && bson_equal(self@[m].1, f.value@);
                                assert(self@[m].0 == self@[i as int].0);
                            }
                            assert(!has_equal_field(self@, filter@[j as int].0, filter@[j as int].1));
                        }
                        return false;
                    }
                    assert(self@[i as int].0 == f.key@ && bson_equal(self@[i as int].1, f.value@));
                },
            }
            j = j + 1;
        }
        true
    }

    /// Sets field `key` to `value`, overwriting it in place if present and
    /// appending it otherwise.
    pub fn set(&mut self, key: String, value: Vec<u8>)
        requires
            old(self).wf(),
        ensures
            final(self)@ == set_field(old(self)@, key@, value@),
            final(self).wf(),
    {
        proof {
            lemma_set_field_distinct(self@, key@, value@);
        }
        match self.position(&key) {
            Some(i) => {
                proof {
                    let x = key_index(self@, key@);
                    assert(self@[x].0 == key@);
                    assert(x == i);
                }
                let ghost before = self@;
                self.fields.set(i, Field { key, value });
                assert(self@ =~= before.update(i as int, (key@, value@)));
            },
            None => {
                let ghost before = self@;
                let f = Field { key, value };
                self.fields.push(f);
                assert(self@ =~= before.push((key@, value@)));
            },
        }
    }

    /// Merges every field of `updates` except the identity field into this
    /// document, in order.
    pub fn merge(&mut self, updates: &Document)
        requires
            old(self).wf(),
        ensures
            final(self)@ == merged(old(self)@, updates@),
            final(self).wf(),
    {
        let id_name = id_field_name();
        let ghost start = self@;
        let mut i: usize = 0;
        while i < updates.fields.len()
            invariant
                i <= updates.fields.len(),
                self.wf(),
                id_name@ == id_key(),
                self@ == merged(start, updates@.take(i as int)),
            decreases updates.fields.len() - i,
        {
            let f = &updates.fields[i];
            assert(updates@.take(i + 1).drop_last() =~= updates@.take(i as int));
            assert(updates@.take(i + 1).last() == f@);
            if f.key != id_name {
                self.set(f.key.clone(), copy_bytes(&f.value));
            }
            i = i + 1;
        }
        assert(updates@.take(updates.fields.len() as int) =~= updates@);
    }
}

pub proof fn lemma_set_field_distinct(d: Seq<FieldView>, k: Seq<char>, v: Seq<u8>)
    requires
        keys_distinct(d),
    ensures
        keys_distinct(set_field(d, k, v)),
{
    let r = set_field(d, k, v);
    if has_key(d, k) {
        let x = key_index(d, k);
        assert forall|i: int, j: int|
            0 <= i < r.len() && 0 <= j < r.len() && i != j implies #[trigger] r[i].0 != #[trigger] r[j].0 by {
            if i == x {
                assert(d[x].0 == k);
            } else if j == x {
                assert(d[x].0 == k);
            } else {
                assert(r[i] == d[i] && r[j] == d[j]);
            }
        }
    } else {
        assert forall|i: int, j: int|
            0 <= i < r.len() && 0 <= j < r.len() && i != j implies #[trigger] r[i].0 != #[trigger] r[j].0 by {
            if i == d.len() {
                assert(r[j] == d[j]);
            } else if j == d.len() {
                assert(r[i] == d[i]);
            } else {
                assert(r[i] == d[i] && r[j] == d[j]);
            }
        }
    }
}

/// The fields that `bson::from_slice` reads from a document's bytes, each
/// value re-encoded on its own, or `None` when the bytes are no document.
pub uninterp spec fn bson_fields(b: Seq<u8>) -> Option<Seq<FieldView>>;

/// Relies on `bson::from_slice::<bson::Document>` to read a document, and on
/// `bson::to_vec` to encode each of its values as `{"": value}`. A
/// `bson::Document` is an `IndexMap`, so its field names are distinct.
#[verifier::external_body]
fn decode_bson(b: &[u8]) -> (r: Option<Document>)
    ensures
        match r {
            Some(d) => bson_fields(b@) == Some(d@) && d.wf(),
            None => bson_fields(b@) is None,
        },
{
    let d: bson::Document = bson::from_slice(b).ok()?;
    let mut fields: Vec<Field> = Vec::new();
    for (key, v) in d {
        let mut one = bson::Document::new();
        one.insert("", v);
        fields.push(Field { key, value: bson::to_vec(&one).ok()? });
    }
    Some(Document { fields })
}

/// Reads a document from its BSON bytes; `None` when they hold none.
pub fn decode_document(b: &[u8]) -> (r: Option<Document>)
    ensures
        match r {
            Some(d) => bson_fields(b@) == Some(d@) && d.wf(),
            None => bson_fields(b@) is None,
        },
{
    decode_bson(b)
}

/// The identity field's name as a string.
pub fn id_field_name() -> (r: String)
    ensures
        r@ == id_key(),
{
    let r = String::from_str("_id");
    proof {
        reveal_strlit("_id");
    }
    r
}

} // verus!
