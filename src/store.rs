//! The residency table: which collections are held in memory, when each was
//! last used, and when it falls due to be written back and dropped.
//!
//! Times are milliseconds on a clock the caller reads; the table only
//! decides, and the caller loads, writes and drops the collections.
use vstd::prelude::*;

verus! {

/// A resident collection as seen in contracts: name, last access, flush time.
pub type ResidentView = (Seq<char>, u64, u64);

pub struct Resident {
    pub name: String,
    pub last_access: u64,
    pub flush_at: u64,
}

impl View for Resident {
    type V = ResidentView;

    open spec fn view(&self) -> ResidentView {
        (self.name@, self.last_access, self.flush_at)
    }
}

pub struct ResidencyTable {
    pub entries: Vec<Resident>,
    pub flush_interval: u64,
}

/// The flush time of an access at `now`: `now + interval`, held at the
/// clock's largest value.
pub open spec fn deadline(now: u64, interval: u64) -> u64 {
    if now + interval <= u64::MAX { (now + interval) as u64 } else { u64::MAX }
}

/// `s` has an entry for `name`.
pub open spec fn resident(s: Seq<ResidentView>, name: Seq<char>) -> bool {
    exists|i: int| 0 <= i < s.len() && #[trigger] s[i].0 == name
}

/// The names of the entries of `s` that are due at `now`, in table order.
pub open spec fn due(s: Seq<ResidentView>, now: u64) -> Seq<Seq<char>>
    decreases s.len(),
{
    if s.len() == 0 {
        seq![]
    } else if s.last().2 <= now {
        due(s.drop_last(), now).push(s.last().0)
    } else {
        due(s.drop_last(), now)
    }
}

pub open spec fn names_distinct(s: Seq<ResidentView>) -> bool {
    forall|i: int, j: int| 0 <= i < s.len() && 0 <= j < s.len() && i != j ==> #[trigger] s[i].0 != #[trigger] s[j].0
}

impl View for ResidencyTable {
    type V = Seq<ResidentView>;

    open spec fn view(&self) -> Seq<ResidentView> {
        self.entries@.map_values(|e: Resident| e@)
    }
}

impl ResidencyTable {
    /// The well-formedness of the table: one entry per name.
    pub open spec fn wf(&self) -> bool {
        names_distinct(self@)
    }

    /// An empty table whose accesses fall due `flush_interval` after them.
    pub fn new(flush_interval: u64) -> (r: ResidencyTable)
        ensures
            r@ == Seq::<ResidentView>::empty(),
            r.flush_interval == flush_interval,
            r.wf(),
    {
        ResidencyTable { entries: Vec::new(), flush_interval }
    }

    fn position(&self, name: &String) -> (r: Option<usize>)
        ensures
            match r {
                Some(i) => i < self@.len() && self@[i as int].0 == name@,
                None => !resident(self@, name@),
            },
    {
        let mut i: usize = 0;
        while i < self.entries.len()
            invariant
                i <= self.entries.len(),
                forall|j: int| 0 <= j < i ==> self@[j].0 != name@,
            decreases self.entries.len() - i,
        {
            if self.entries[i].name == *name {
                return Some(i);
            }
            i = i + 1;
        }
        None
    }

    /// Whether `name` is resident.
    pub fn is_resident(&self, name: &String) -> (r: bool)
        ensures
            r == resident(self@, name@),
    {
        self.position(name).is_some()
    }

    /// Records an access to `name` at `now`: a resident entry is refreshed,
    /// an absent one is added. Returns whether `name` was resident; when it
    /// was not, the caller loads (or creates) the collection.
    pub fn touch(&mut self, name: &String, now: u64) -> (r: bool)
        requires
            old(self).wf(),
        ensures
            final(self).wf(),
            final(self).flush_interval == old(self).flush_interval,
            r == resident(old(self)@, name@),
            r ==> final(self)@ == old(self)@.update(
                choose|i: int| 0 <= i < old(self)@.len() && #[trigger] old(self)@[i].0 == name@,
                (name@, now, deadline(now, old(self).flush_interval)),
            ),
            !r ==> final(self)@ == old(self)@.push((name@, now, deadline(now, old(self).flush_interval))),
    {
        let flush_at = now.saturating_add(self.flush_interval);
        let ghost before = self@;
        let entry = Resident { name: name.clone(), last_access: now, flush_at };
        match self.position(name) {
            Some(i) => {
                proof {
                    let c = choose|c: int| 0 <= c < before.len() && #[trigger] before[c].0 == name@;
                    assert(before[c].0 == before[i as int].0);
                }
                self.entries.set(i, entry);
                assert(self@ =~= before.update(i as int, (name@, now, deadline(now, self.flush_interval))));
                true
            },
            None => {
                self.entries.push(entry);
                assert(self@ =~= before.push((name@, now, deadline(now, self.flush_interval))));
                proof {
                    assert forall|a: int, b: int| 0 <= a < self@.len() && 0 <= b < self@.len() && a != b
                        implies #[trigger] self@[a].0 != #[trigger] self@[b].0 by {
                        if a == before.len() {
                            assert(before[b].0 == self@[b].0);
                        } else if b == before.len() {
                            assert(before[a].0 == self@[a].0);
                        }
                    }
                }
                false
            },
        }
    }

    /// The names of every resident collection, in table order: what a full
    /// sync writes back.
    pub fn names(&self) -> (r: Vec<String>)
        ensures
            r@.map_values(|s: String| s@) == self@.map_values(|e: ResidentView| e.0),
    {
        let mut out: Vec<String> = Vec::new();
        let mut i: usize = 0;
        while i < self.entries.len()
            invariant
                i <= self.entries.len(),
                out@.len() == i,
                forall|j: int| 0 <= j < i ==> #[trigger] out@[j]@ == self@[j].0,
            decreases self.entries.len() - i,
        {
            out.push(self.entries[i].name.clone());
            i = i + 1;
        }
        assert(out@.map_values(|s: String| s@) =~= self@.map_values(|e: ResidentView| e.0));
        out
    }

    /// The names of the entries that are due at `now`, in table order: what
    /// a sweep writes back and then evicts.
    pub fn expired(&self, now: u64) -> (r: Vec<String>)
        ensures
            r@.map_values(|s: String| s@) == due(self@, now),
    {
        let ghost s = self@;
        let mut gone: Vec<String> = Vec::new();
        let mut i: usize = 0;
        while i < self.entries.len()
            invariant
                self@ == s,
                i <= s.len(),
                gone@.map_values(|n: String| n@) == due(s.take(i as int), now),
            decreases s.len() - i,
        {
            let e = &self.entries[i];
            assert(s.take(i + 1).drop_last() =~= s.take(i as int));
            assert(s.take(i + 1).last() == e@);
            let ghost g0 = gone@.map_values(|n: String| n@);
            if e.flush_at <= now {
                gone.push(e.name.clone());
                assert(gone@.map_values(|n: String| n@) =~= g0.push(e.name@));
            }
            i = i + 1;
        }
        assert(s.take(s.len() as int) =~= s);
        gone
    }

    /// Drops the entry of `name`, once its collection has been written back.
    /// Returns whether there was one.
    pub fn evict(&mut self, name: &String) -> (r: bool)
        requires
            old(self).wf(),
        ensures
            final(self).wf(),
            final(self).flush_interval == old(self).flush_interval,
            r == resident(old(self)@, name@),
            r ==> final(self)@ == old(self)@.remove(
                choose|i: int| 0 <= i < old(self)@.len() && #[trigger] old(self)@[i].0 == name@,
            ),
            !r ==> final(self)@ == old(self)@,
            !resident(final(self)@, name@),
    {
        let ghost before = self@;
        match self.position(name) {
            Some(i) => {
                proof {
                    let c = choose|c: int| 0 <= c < before.len() && #[trigger] before[c].0 == name@;
                    assert(before[c].0 == before[i as int].0);
                }
                self.entries.remove(i);
                assert(self@ =~= before.remove(i as int));
                proof {
                    assert forall|a: int, b: int| 0 <= a < self@.len() && 0 <= b < self@.len() && a != b
                        implies #[trigger] self@[a].0 != #[trigger] self@[b].0 by {
                        let a2 = if a < i { a } else { a + 1 };
                        let b2 = if b < i { b } else { b + 1 };
                        assert(self@[a] == before[a2] && self@[b] == before[b2]);
                    }
                    if resident(self@, name@) {
                        let q = choose|q: int| 0 <= q < self@.len() && #[trigger] self@[q].0 == name@;
                        let q2 = if q < i { q } else { q + 1 };
                        assert(self@[q] == before[q2]);
                    }
                }
                true
            },
            None => false,
        }
    }
}

} // verus!
