//! Collections: documents keyed by identity, kept in identity order.
use vstd::prelude::*;
use crate::document::{
    Document, FieldView, bson_equal, has_equal_field, has_field, has_key, id_key, keys_distinct,
    lemma_merge_keeps_identity, matches_filter, merged,
};

verus! {

/// A stored document as seen in contracts: its identity and its fields.
pub type RecordView = (u128, Seq<FieldView>);

pub struct Record {
    pub id: u128,
    pub doc: Document,
}

impl View for Record {
    type V = RecordView;

    open spec fn view(&self) -> RecordView {
        (self.id, self.doc@)
    }
}

pub struct Collection {
    pub records: Vec<Record>,
}

impl View for Collection {
    type V = Seq<RecordView>;

    open spec fn view(&self) -> Seq<RecordView> {
        self.records@.map_values(|r: Record| r@)
    }
}

/// Identities strictly increase along `s`, and every document is well formed.
pub open spec fn records_wf(s: Seq<RecordView>) -> bool {
    &&& forall|i: int, j: int| 0 <= i < j < s.len() ==> #[trigger] s[i].0 < #[trigger] s[j].0
    &&& forall|i: int| 0 <= i < s.len() ==> keys_distinct(#[trigger] s[i].1)
}

/// `s` holds document `d` under identity `id`.
pub open spec fn holds(s: Seq<RecordView>, id: u128, d: Seq<FieldView>) -> bool {
    exists|i: int| 0 <= i < s.len() && #[trigger] s[i] == (id, d)
}

/// `s` holds some document under identity `id`.
pub open spec fn has_id(s: Seq<RecordView>, id: u128) -> bool {
    exists|i: int| 0 <= i < s.len() && #[trigger] s[i].0 == id
}

/// How many documents of `s` match `filter`.
pub open spec fn count_matching(s: Seq<RecordView>, filter: Seq<FieldView>) -> nat
    decreases s.len(),
{
    if s.len() == 0 {
        0
    } else {
        count_matching(s.skip(1), filter) + if matches_filter(s[0].1, filter) { 1nat } else { 0nat }
    }
}

/// The first `n` documents of `s`, in order, that match `filter`.
pub open spec fn found(s: Seq<RecordView>, filter: Seq<FieldView>, n: nat) -> Seq<Seq<FieldView>>
    decreases s.len(),
{
    if s.len() == 0 || n == 0 {
        seq![]
    } else if matches_filter(s[0].1, filter) {
        seq![s[0].1] + found(s.skip(1), filter, (n - 1) as nat)
    } else {
        found(s.skip(1), filter, n)
    }
}

/// `s` with `updates` merged into the first `n` documents that match `filter`.
pub open spec fn updated(s: Seq<RecordView>, filter: Seq<FieldView>, updates: Seq<FieldView>, n: nat) -> Seq<RecordView>
    decreases s.len(),
{
    if s.len() == 0 {
        s
    } else if n > 0 && matches_filter(s[0].1, filter) {
        seq![(s[0].0, merged(s[0].1, updates))] + updated(s.skip(1), filter, updates, (n - 1) as nat)
    } else {
        seq![s[0]] + updated(s.skip(1), filter, updates, n)
    }
}

/// `s` without the first `n` documents that match `filter`.
pub open spec fn removed(s: Seq<RecordView>, filter: Seq<FieldView>, n: nat) -> Seq<RecordView>
    decreases s.len(),
{
    if s.len() == 0 {
        s
    } else if n > 0 && matches_filter(s[0].1, filter) {
        removed(s.skip(1), filter, (n - 1) as nat)
    } else {
        seq![s[0]] + removed(s.skip(1), filter, n)
    }
}

/// The first `n` documents of `s` that match `filter`, each with `updates`
/// merged in.
pub open spec fn updated_found(s: Seq<RecordView>, filter: Seq<FieldView>, updates: Seq<FieldView>, n: nat) -> Seq<Seq<FieldView>>
    decreases s.len(),
{
    if s.len() == 0 || n == 0 {
        seq![]
    } else if matches_filter(s[0].1, filter) {
        seq![merged(s[0].1, updates)] + updated_found(s.skip(1), filter, updates, (n - 1) as nat)
    } else {
        updated_found(s.skip(1), filter, updates, n)
    }
}

/// The cap that an optional limit puts on a scan of `len` documents.
pub open spec fn cap(limit: Option<u32>, len: nat) -> nat {
    match limit {
        Some(k) => k as nat,
        None => len,
    }
}

pub open spec fn min(a: nat, b: nat) -> nat {
    if a <= b { a } else { b }
}


proof fn lemma_replace_holds(s: Seq<RecordView>, r: Seq<RecordView>, p: int, id: u128, dv: Seq<FieldView>)
    requires
        r == s.update(p, (id, dv)),
        records_wf(s),
        keys_distinct(dv),
        0 <= p < s.len(),
        s[p].0 == id,
    ensures
        records_wf(r),
        has_id(s, id),
        forall|k: u128, d: Seq<FieldView>|
            holds(r, k, d) <==> ((k == id && d == dv) || (k != id && holds(s, k, d))),
{
    assert(s[p].0 == id);
    assert forall|k: u128, d: Seq<FieldView>|
        holds(r, k, d) <==> ((k == id && d == dv) || (k != id && holds(s, k, d))) by {
        if holds(r, k, d) {
            let i = choose|i: int| 0 <= i < r.len() && #[trigger] r[i] == (k, d);
            if i != p {
                assert(s[i] == (k, d));
                if i < p {
                    assert(s[i].0 < s[p].0);
                } else {
                    assert(s[p].0 < s[i].0);
                }
            }
        }
        if k != id && holds(s, k, d) {
            let i = choose|i: int| 0 <= i < s.len() && #[trigger] s[i] == (k, d);
            assert(r[i] == (k, d));
        }
        if k == id && d == dv {
            assert(r[p] == (k, d));
        }
    }
}

proof fn lemma_insert_holds(s: Seq<RecordView>, r: Seq<RecordView>, p: int, id: u128, dv: Seq<FieldView>)
    requires
        r == s.insert(p, (id, dv)),
        records_wf(s),
        keys_distinct(dv),
        0 <= p <= s.len(),
        forall|j: int| 0 <= j < p ==> s[j].0 < id,
        p < s.len() ==> s[p].0 > id,
    ensures
        records_wf(r),
        !has_id(s, id),
        forall|k: u128, d: Seq<FieldView>|
            holds(r, k, d) <==> ((k == id && d == dv) || (k != id && holds(s, k, d))),
{
    if has_id(s, id) {
        let i = choose|i: int| 0 <= i < s.len() && #[trigger] s[i].0 == id;
        if i >= p {
            assert(s[p].0 <= s[i].0);
        }
    }
    assert forall|i: int, j: int| 0 <= i < j < r.len() implies #[trigger] r[i].0 < #[trigger] r[j].0 by {
        if j < p {
        } else if j == p {
        } else if i < p {
            assert(s[j - 1].0 >= s[p].0);
        } else if i == p {
            assert(s[j - 1].0 >= s[p].0);
        } else {
            assert(s[i - 1].0 < s[j - 1].0);
        }
    }
    assert forall|k: u128, d: Seq<FieldView>|
        holds(r, k, d) <==> ((k == id && d == dv) || (k != id && holds(s, k, d))) by {
        if holds(r, k, d) {
            let i = choose|i: int| 0 <= i < r.len() && #[trigger] r[i] == (k, d);
            if i < p {
                assert(s[i] == (k, d));
            } else if i > p {
                assert(s[i - 1] == (k, d));
            }
        }
        if k != id && holds(s, k, d) {
            let i = choose|i: int| 0 <= i < s.len() && #[trigger] s[i] == (k, d);
            if i < p {
                assert(r[i] == (k, d));
            } else {
                assert(r[i + 1] == (k, d));
            }
        }
        if k == id && d == dv {
            assert(r[p] == (k, d));
        }
    }
}

/// Within a well-formed collection no two stored documents share an identity.
pub proof fn lemma_identities_unique(s: Seq<RecordView>)
    requires
        records_wf(s),
    ensures
        forall|i: int, j: int| 0 <= i < s.len() && 0 <= j < s.len() && i != j ==> #[trigger] s[i].0 != #[trigger] s[j].0,
{
    assert forall|i: int, j: int| 0 <= i < s.len() && 0 <= j < s.len() && i != j implies #[trigger] s[i].0 != #[trigger] s[j].0 by {
        if i < j {
            assert(s[i].0 < s[j].0);
        } else {
            assert(s[j].0 < s[i].0);
        }
    }
}

/// A filter is a conjunction: a document that lacks one of the filter's
/// fields never matches it.
pub proof fn lemma_missing_field_never_matches(d: Seq<FieldView>, filter: Seq<FieldView>, j: int)
    requires
        0 <= j < filter.len(),
        !has_key(d, filter[j].0),
    ensures
        !matches_filter(d, filter),
{
    if has_equal_field(d, filter[j].0, filter[j].1) {
        let i = choose|i: int| 0 <= i < d.len() && #[trigger] d[i].0 == filter[j].0 && bson_equal(d[i].1, filter[j].1);
        assert(d[i].0 == filter[j].0);
    }
}

/// Every document a filtered scan selects has each field of the filter, with
/// a value equal to the filter's.
pub proof fn lemma_found_match(s: Seq<RecordView>, filter: Seq<FieldView>, n: nat)
    ensures
        forall|i: int, j: int| 0 <= i < found(s, filter, n).len() && 0 <= j < filter.len()
            ==> has_equal_field(#[trigger] found(s, filter, n)[i], #[trigger] filter[j].0, filter[j].1),
    decreases s.len(),
{
    if s.len() > 0 && n > 0 {
        if matches_filter(s[0].1, filter) {
            lemma_found_match(s.skip(1), filter, (n - 1) as nat);
            let t = found(s.skip(1), filter, (n - 1) as nat);
            assert forall|i: int, j: int| 0 <= i < found(s, filter, n).len() && 0 <= j < filter.len()
                implies has_equal_field(#[trigger] found(s, filter, n)[i], #[trigger] filter[j].0, filter[j].1) by {
                if i > 0 {
                    assert(found(s, filter, n)[i] == t[i - 1]);
                } else {
                    assert(found(s, filter, n)[0] == s[0].1);
                    assert(has_equal_field(s[0].1, filter[j].0, filter[j].1));
                }
            }
        } else {
            lemma_found_match(s.skip(1), filter, n);
            assert(found(s, filter, n) == found(s.skip(1), filter, n));
        }
    }
}

/// An update never changes a document's identity, nor its identity field,
/// even when the updates name that field.
pub proof fn lemma_update_keeps_identity(s: Seq<RecordView>, filter: Seq<FieldView>, updates: Seq<FieldView>, n: nat)
    requires
        records_wf(s),
    ensures
        updated(s, filter, updates, n).len() == s.len(),
        forall|i: int| 0 <= i < s.len() ==> #[trigger] updated(s, filter, updates, n)[i].0 == s[i].0,
        forall|i: int, v: Seq<u8>| 0 <= i < s.len() ==>
            #[trigger] has_field(updated(s, filter, updates, n)[i].1, id_key(), v) == has_field(s[i].1, id_key(), v),
    decreases s.len(),
{
    if s.len() > 0 {
        let t = s.skip(1);
        assert(records_wf(t)) by {
            assert forall|i: int, j: int| 0 <= i < j < t.len() implies #[trigger] t[i].0 < #[trigger] t[j].0 by {
                assert(s[i + 1].0 < s[j + 1].0);
            }
            assert forall|i: int| 0 <= i < t.len() implies keys_distinct(#[trigger] t[i].1) by {
                assert(keys_distinct(s[i + 1].1));
            }
        }
        let hit = n > 0 && matches_filter(s[0].1, filter);
        let m: nat = if hit { (n - 1) as nat } else { n };
        lemma_update_keeps_identity(t, filter, updates, m);
        let u = updated(s, filter, updates, n);
        let ut = updated(t, filter, updates, m);
        assert forall|i: int, v: Seq<u8>| 0 <= i < s.len() implies
            #[trigger] has_field(u[i].1, id_key(), v) == has_field(s[i].1, id_key(), v)
            && u[i].0 == s[i].0 by {
            if i == 0 {
                if hit {
                    assert(keys_distinct(s[0].1));
                    lemma_merge_keeps_identity(s[0].1, updates, v);
                }
            } else {
                assert(u[i] == ut[i - 1]);
                assert(t[i - 1] == s[i]);
            }
        }
    }
}

/// The documents an update returns are the documents a find with the same
/// filter and cap selects, each with the updates merged in.
pub proof fn lemma_update_returns_found_merged(s: Seq<RecordView>, filter: Seq<FieldView>, updates: Seq<FieldView>, n: nat)
    requires
        forall|i: int| 0 <= i < s.len() ==> keys_distinct(#[trigger] s[i].1),
    ensures
        updated_found(s, filter, updates, n).len() == found(s, filter, n).len(),
        forall|i: int| 0 <= i < found(s, filter, n).len() ==> keys_distinct(#[trigger] found(s, filter, n)[i]),
        forall|i: int| 0 <= i < found(s, filter, n).len()
            ==> #[trigger] updated_found(s, filter, updates, n)[i] == merged(found(s, filter, n)[i], updates),
    decreases s.len(),
{
    if s.len() > 0 && n > 0 {
        let t = s.skip(1);
        assert forall|i: int| 0 <= i < t.len() implies keys_distinct(#[trigger] t[i].1) by {
            assert(t[i] == s[i + 1]);
        }
        if matches_filter(s[0].1, filter) {
            lemma_update_returns_found_merged(t, filter, updates, (n - 1) as nat);
            let f0 = found(t, filter, (n - 1) as nat);
            let u0 = updated_found(t, filter, updates, (n - 1) as nat);
            assert forall|i: int| 0 <= i < found(s, filter, n).len() implies keys_distinct(#[trigger] found(s, filter, n)[i])
                && updated_found(s, filter, updates, n)[i] == merged(found(s, filter, n)[i], updates) by {
                if i > 0 {
                    assert(found(s, filter, n)[i] == f0[i - 1]);
                    assert(updated_found(s, filter, updates, n)[i] == u0[i - 1]);
                } else {
                    assert(found(s, filter, n)[0] == s[0].1);
                    assert(updated_found(s, filter, updates, n)[0] == merged(s[0].1, updates));
                }
            }
        } else {
            lemma_update_returns_found_merged(t, filter, updates, n);
            assert(found(s, filter, n) == found(t, filter, n));
            assert(updated_found(s, filter, updates, n) == updated_found(t, filter, updates, n));
        }
    }
}

/// Every document an update returns keeps the identity field of the document
/// it came from, even when the updates name that field.
pub proof fn lemma_update_returns_keep_identity(s: Seq<RecordView>, filter: Seq<FieldView>, updates: Seq<FieldView>, n: nat)
    requires
        records_wf(s),
    ensures
        updated_found(s, filter, updates, n).len() == found(s, filter, n).len(),
        forall|i: int, v: Seq<u8>| 0 <= i < found(s, filter, n).len()
            ==> #[trigger] has_field(updated_found(s, filter, updates, n)[i], id_key(), v) == has_field(found(s, filter, n)[i], id_key(), v),
{
    lemma_update_returns_found_merged(s, filter, updates, n);
    assert forall|i: int, v: Seq<u8>| 0 <= i < found(s, filter, n).len()
        implies #[trigger] has_field(updated_found(s, filter, updates, n)[i], id_key(), v) == has_field(found(s, filter, n)[i], id_key(), v) by {
        assert(keys_distinct(found(s, filter, n)[i]));
        lemma_merge_keeps_identity(found(s, filter, n)[i], updates, v);
    }
}

/// An update changes only documents that match the filter, and every
/// document it returns had each field of the filter with an equal value.
pub proof fn lemma_update_touches_only_matches(s: Seq<RecordView>, filter: Seq<FieldView>, updates: Seq<FieldView>, n: nat)
    requires
        records_wf(s),
    ensures
        forall|i: int| 0 <= i < s.len() && !matches_filter(s[i].1, filter)
            ==> #[trigger] updated(s, filter, updates, n)[i] == s[i],
        forall|i: int| 0 <= i < updated_found(s, filter, updates, n).len()
            ==> #[trigger] updated_found(s, filter, updates, n)[i] == merged(found(s, filter, n)[i], updates)
            && matches_filter(found(s, filter, n)[i], filter),
    decreases s.len(),
{
    lemma_update_returns_found_merged(s, filter, updates, n);
    lemma_found_match(s, filter, n);
    assert forall|i: int| 0 <= i < updated_found(s, filter, updates, n).len()
        implies matches_filter(found(s, filter, n)[i], filter) by {
        assert forall|j: int| 0 <= j < filter.len() implies has_equal_field(found(s, filter, n)[i], #[trigger] filter[j].0, filter[j].1) by {}
    }
    lemma_updated_keeps_unmatched(s, filter, updates, n);
}

proof fn lemma_updated_keeps_unmatched(s: Seq<RecordView>, filter: Seq<FieldView>, updates: Seq<FieldView>, n: nat)
    ensures
        updated(s, filter, updates, n).len() == s.len(),
        forall|i: int| 0 <= i < s.len() && !matches_filter(s[i].1, filter)
            ==> #[trigger] updated(s, filter, updates, n)[i] == s[i],
    decreases s.len(),
{
    if s.len() > 0 {
        let t = s.skip(1);
        let m: nat = if n > 0 && matches_filter(s[0].1, filter) { (n - 1) as nat } else { n };
        lemma_updated_keeps_unmatched(t, filter, updates, m);
        let ut = updated(t, filter, updates, m);
        assert forall|i: int| 0 <= i < s.len() && !matches_filter(s[i].1, filter)
            implies #[trigger] updated(s, filter, updates, n)[i] == s[i] by {
            if i > 0 {
                assert(updated(s, filter, updates, n)[i] == ut[i - 1]);
                assert(t[i - 1] == s[i]);
            }
        }
    }
}

/// How many documents a scan with cap `n` selects: `n`, or every match when
/// there are fewer.
pub proof fn lemma_limit(s: Seq<RecordView>, filter: Seq<FieldView>, updates: Seq<FieldView>, n: nat)
    ensures
        found(s, filter, n).len() == min(n, count_matching(s, filter)),
        updated_found(s, filter, updates, n).len() == min(n, count_matching(s, filter)),
        count_matching(s, filter) <= s.len(),
    decreases s.len(),
{
    if s.len() > 0 {
        lemma_limit(s.skip(1), filter, updates, n);
        if n > 0 {
            lemma_limit(s.skip(1), filter, updates, (n - 1) as nat);
        }
    }
}

/// Without a limit a scan selects every matching document.
pub proof fn lemma_no_limit_selects_all(s: Seq<RecordView>, filter: Seq<FieldView>, updates: Seq<FieldView>)
    ensures
        found(s, filter, cap(None, s.len())).len() == count_matching(s, filter),
        updated_found(s, filter, updates, cap(None, s.len())).len() == count_matching(s, filter),
{
    lemma_limit(s, filter, updates, s.len());
}

impl Collection {
    pub open spec fn wf(&self) -> bool {
        records_wf(self@)
    }

    /// The empty collection.
    pub fn new() -> (r: Collection)
        ensures
            r@ == Seq::<RecordView>::empty(),
            r.wf(),
    {
        Collection { records: Vec::new() }
    }

    pub fn len(&self) -> (r: usize)
        ensures
            r == self@.len(),
    {
        self.records.len()
    }

    /// The document stored under `id`, if any.
    pub fn get(&self, id: u128) -> (r: Option<&Document>)
        requires
            self.wf(),
        ensures
            match r {
                Some(d) => holds(self@, id, d@),
                None => !has_id(self@, id),
            },
    {
        let mut i: usize = 0;
        while i < self.records.len()
            invariant
                i <= self.records.len(),
                forall|j: int| 0 <= j < i ==> self@[j].0 != id,
            decreases self.records.len() - i,
        {
            if self.records[i].id == id {
                assert(self@[i as int] == (id, self.records@[i as int].doc@));
                return Some(&self.records[i].doc);
            }
            i = i + 1;
        }
        None
    }

    /// Stores `doc` under `id`, replacing the document already stored under
    /// that identity, if any.
    pub fn insert(&mut self, id: u128, doc: Document)
        requires
            old(self).wf(),
            doc.wf(),
        ensures
            final(self).wf(),
            has_id(old(self)@, id) ==> final(self)@.len() == old(self)@.len(),
            !has_id(old(self)@, id) ==> final(self)@.len() == old(self)@.len() + 1,
            forall|k: u128, d: Seq<FieldView>|
                holds(final(self)@, k, d) <==> ((k == id && d == doc@) || (k != id && holds(old(self)@, k, d))),
    {
        let ghost s = self@;
        let ghost dv = doc@;
        assert(s == old(self)@);
        let mut p: usize = 0;
        while p < self.records.len() && self.records[p].id < id
            invariant
                p <= self.records.len(),
                self@ == s,
                forall|j: int| 0 <= j < p ==> self@[j].0 < id,
            decreases self.records.len() - p,
        {
            p = p + 1;
        }
        if p < self.records.len() && self.records[p].id == id {
            self.records.set(p, Record { id, doc });
            assert(self@ =~= s.update(p as int, (id, dv)));
            proof {
                lemma_replace_holds(s, self@, p as int, id, dv);
            }
        } else {
            self.records.insert(p, Record { id, doc });
            assert(self@ =~= s.insert(p as int, (id, dv)));
            proof {
                lemma_insert_holds(s, self@, p as int, id, dv);
            }
        }
    }

    /// The first `limit` documents (all of them without a limit), in identity
    /// order, that match `filter`.
    pub fn find(&self, filter: &Document, limit: Option<u32>) -> (r: Vec<Document>)
        requires
            self.wf(),
        ensures
            r@.map_values(|d: Document| d@) == found(self@, filter@, cap(limit, self@.len())),
    {
        let ghost s = self@;
        let ghost n = cap(limit, s.len());
        let mut out: Vec<Document> = Vec::new();
        let mut i: usize = 0;
        assert(s.skip(0) =~= s);
        assert(out@.map_values(|d: Document| d@) + found(s, filter@, n) =~= found(s, filter@, n));
        while i < self.records.len()
            invariant
                self.wf(),
                s == self@,
                i <= s.len(),
                out.len() <= n,
                out.len() <= i,
                n == cap(limit, s.len()),
                found(s, filter@, n) == out@.map_values(|d: Document| d@) + found(
                    s.skip(i as int),
                    filter@,
                    (n - out.len()) as nat,
                ),
            decreases s.len() - i,
        {
            if let Some(k) = limit {
                if out.len() >= k as usize {
                    assert(found(s.skip(i as int), filter@, 0) == Seq::<Seq<FieldView>>::empty());
                    assert(found(s, filter@, n) =~= out@.map_values(|d: Document| d@));
                    return out;
                }
            }
            let rec = &self.records[i];
            assert(out.len() < n);
            assert(s.skip(i as int)[0] == rec@);
            assert(s.skip(i as int).skip(1) =~= s.skip(i + 1));
            let ghost before = out@.map_values(|d: Document| d@);
            if rec.doc.matches(filter) {
                out.push(rec.doc.copy());
                assert(out@.map_values(|d: Document| d@) =~= before.push(rec.doc@));
                assert(before + seq![rec.doc@] + found(s.skip(i + 1), filter@, (n - out.len()) as nat)
                    =~= before + (seq![rec.doc@] + found(s.skip(i + 1), filter@, (n - out.len()) as nat)));
            }
            i = i + 1;
        }
        assert(found(s.skip(i as int), filter@, (n - out.len()) as nat) == Seq::<Seq<FieldView>>::empty());
        assert(found(s, filter@, n) =~= out@.map_values(|d: Document| d@));
        out
    }

    /// Merges `updates` (all but the identity field) into the first `limit`
    /// documents (all of them without a limit), in identity order, that match
    /// `filter`; returns the updated documents.
    pub fn update(&mut self, filter: &Document, updates: &Document, limit: Option<u32>) -> (r: Vec<Document>)
        requires
            old(self).wf(),
        ensures
            final(self).wf(),
            final(self)@ == updated(old(self)@, filter@, updates@, cap(limit, old(self)@.len())),
            r@.map_values(|d: Document| d@) == updated_found(old(self)@, filter@, updates@, cap(limit, old(self)@.len())),
    {
        let ghost s = self@;
        let ghost n = cap(limit, s.len());
        let mut out: Vec<Document> = Vec::new();
        let mut i: usize = 0;
        assert(s.skip(0) =~= s);
        assert(self@.take(0) + updated(s, filter@, updates@, n) =~= updated(s, filter@, updates@, n));
        assert(out@.map_values(|d: Document| d@) + updated_found(s, filter@, updates@, n) =~= updated_found(s, filter@, updates@, n));
        while i < self.records.len()
            invariant
                self.wf(),
                self@.len() == s.len(),
                i <= s.len(),
                out.len() <= i,
                out.len() <= n,
                n == cap(limit, s.len()),
                self@.skip(i as int) == s.skip(i as int),
                updated(s, filter@, updates@, n) == self@.take(i as int) + updated(
                    s.skip(i as int),
                    filter@,
                    updates@,
                    (n - out.len()) as nat,
                ),
                updated_found(s, filter@, updates@, n) == out@.map_values(|d: Document| d@) + updated_found(
                    s.skip(i as int),
                    filter@,
                    updates@,
                    (n - out.len()) as nat,
                ),
            decreases s.len() - i,
        {
            let open = match limit {
                Some(k) => out.len() < k as usize,
                None => true,
            };
            let ghost m = (n - out.len()) as nat;
            let ghost cur = self@;
            let ghost before = out@.map_values(|d: Document| d@);
            let ghost rest = s.skip(i as int);
            assert(rest[0] == cur[i as int]) by {
                assert(cur.skip(i as int)[0] == cur[i as int]);
            }
            assert(rest.skip(1) =~= s.skip(i + 1));
            if open && self.records[i].doc.matches(filter) {
                let id = self.records[i].id;
                let mut doc = self.records[i].doc.copy();
                doc.merge(updates);
                let ghost dv = doc@;
                let kept = doc.copy();
                self.records.set(i, Record { id, doc });
                out.push(kept);
                assert(self@ =~= cur.update(i as int, (id, dv)));
                assert(out@.map_values(|d: Document| d@) =~= before.push(dv));
                assert(self@.take(i + 1) =~= cur.take(i as int).push((id, dv)));
                assert(self@.skip(i + 1) =~= cur.skip(i + 1));
                assert(cur.skip(i + 1) =~= cur.skip(i as int).skip(1));
                assert(updated(rest, filter@, updates@, m) == seq![(id, dv)] + updated(s.skip(i + 1), filter@, updates@, (m - 1) as nat));
                assert(cur.take(i as int) + (seq![(id, dv)] + updated(s.skip(i + 1), filter@, updates@, (m - 1) as nat))
                    =~= self@.take(i + 1) + updated(s.skip(i + 1), filter@, updates@, (m - 1) as nat));
                assert(before + (seq![dv] + updated_found(s.skip(i + 1), filter@, updates@, (m - 1) as nat))
                    =~= out@.map_values(|d: Document| d@) + updated_found(s.skip(i + 1), filter@, updates@, (m - 1) as nat));
            } else {
                assert(m == 0 || !matches_filter(rest[0].1, filter@));
                assert(self@.take(i + 1) =~= cur.take(i as int).push(cur[i as int]));
                assert(cur.skip(i + 1) =~= cur.skip(i as int).skip(1));
                assert(updated(rest, filter@, updates@, m) == seq![rest[0]] + updated(s.skip(i + 1), filter@, updates@, m));
                assert(cur.take(i as int) + (seq![rest[0]] + updated(s.skip(i + 1), filter@, updates@, m))
                    =~= self@.take(i + 1) + updated(s.skip(i + 1), filter@, updates@, m));
                proof {
                    if m > 0 {
                        assert(updated_found(rest, filter@, updates@, m) == updated_found(s.skip(i + 1), filter@, updates@, m));
                    }
                }
            }
            i = i + 1;
        }
        assert(self@.take(i as int) =~= self@);
        assert(s.skip(i as int) =~= Seq::<RecordView>::empty());
        assert(updated(s, filter@, updates@, n) =~= self@);
        assert(updated_found(s, filter@, updates@, n) =~= out@.map_values(|d: Document| d@));
        out
    }

    /// Removes the first `limit` documents (all of them without a limit), in
    /// identity order, that match `filter`; returns how many were removed.
    pub fn remove(&mut self, filter: &Document, limit: Option<u32>) -> (r: usize)
        requires
            old(self).wf(),
        ensures
            final(self).wf(),
            final(self)@ == removed(old(self)@, filter@, cap(limit, old(self)@.len())),
            r == found(old(self)@, filter@, cap(limit, old(self)@.len())).len(),
    {
        let ghost s = self@;
        let ghost n = cap(limit, s.len());
        let mut kept: Vec<Record> = Vec::new();
        let mut cnt: usize = 0;
        let mut i: usize = 0;
        assert(s.skip(0) =~= s);
        assert(kept@.map_values(|r: Record| r@) + removed(s, filter@, n) =~= removed(s, filter@, n));
        while i < self.records.len()
            invariant
                self.wf(),
                self@ == s,
                i <= s.len(),
                cnt <= i,
                cnt <= n,
                n == cap(limit, s.len()),
                records_wf(kept@.map_values(|r: Record| r@)),
                i < s.len() ==> forall|j: int| 0 <= j < kept.len() ==> #[trigger] kept@[j].id < s[i as int].0,
                removed(s, filter@, n) == kept@.map_values(|r: Record| r@) + removed(
                    s.skip(i as int),
                    filter@,
                    (n - cnt) as nat,
                ),
                found(s, filter@, n).len() == cnt + found(s.skip(i as int), filter@, (n - cnt) as nat).len(),
            decreases s.len() - i,
        {
            let open = match limit {
                Some(k) => cnt < k as usize,
                None => true,
            };
            let ghost m = (n - cnt) as nat;
            let ghost before = kept@.map_values(|r: Record| r@);
            let ghost rest = s.skip(i as int);
            assert(rest[0] == s[i as int]);
            assert(rest.skip(1) =~= s.skip(i + 1));
            if open && self.records[i].doc.matches(filter) {
                cnt = cnt + 1;
            } else {
                let rec = Record { id: self.records[i].id, doc: self.records[i].doc.copy() };
                kept.push(rec);
                assert(kept@.map_values(|r: Record| r@) =~= before.push(s[i as int]));
                assert(before + (seq![rest[0]] + removed(s.skip(i + 1), filter@, m))
                    =~= kept@.map_values(|r: Record| r@) + removed(s.skip(i + 1), filter@, m));
                proof {
                    if m > 0 {
                        assert(found(rest, filter@, m) == found(s.skip(i + 1), filter@, m));
                    }
                }
            }
            proof {
                if i + 1 < s.len() {
                    assert forall|j: int| 0 <= j < kept.len() implies #[trigger] kept@[j].id < s[i + 1].0 by {
                        assert(s[i as int].0 < s[i + 1].0);
                        if j < before.len() {
                            assert(kept@[j]@ == before[j]);
                        }
                    }
                }
            }
            i = i + 1;
        }
        assert(s.skip(i as int) =~= Seq::<RecordView>::empty());
        assert(removed(s, filter@, n) =~= kept@.map_values(|r: Record| r@));
        self.records = kept;
        cnt
    }
}

} // verus!
