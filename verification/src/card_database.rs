//! The inventory store: counts per catalog identifier, foil and non-foil,
//! with a change history.
//!
//! The store is a list of identifier and count pairs with unique keys; the
//! contracts speak of the count a key maps to.  Loading and saving the store
//! is the caller's concern; everything here is the plain data logic.

use vstd::prelude::*;
use vstd::string::StringExecFns;

verus! {

/// What a history entry records having happened to a count.
#[derive(Clone, Copy, PartialEq, Eq, Structural, Debug)]
pub enum ChangeType {
    Inc,
    Dec,
    SetTo,
}

/// One recorded change: which file's count changed, how, and the value the
/// count held right after the change.
pub struct HistoryEntry {
    pub file_name: String,
    pub change_type: ChangeType,
    pub updated_value: usize,
    pub foil: bool,
}

/// The two counts kept per catalog identifier.
#[derive(Clone, Copy, PartialEq, Eq, Structural, Debug)]
pub struct CardCounts {
    pub non_foil: usize,
    pub foil: usize,
}

impl Default for CardCounts {
    /// Both counts start at zero.
    fn default() -> (r: CardCounts)
        ensures
            r.non_foil == 0,
            r.foil == 0,
    {
        CardCounts { non_foil: 0, foil: 0 }
    }
}

/// The inventory: counts per identifier, and the history of changes.
pub struct CardDatabase {
    pub database: Vec<(String, CardCounts)>,
    pub history: Vec<HistoryEntry>,
}

/// The count the store maps `id` to on the chosen side, zero when the key
/// is absent; the first matching entry decides, and under `wf` there is at
/// most one.
pub open spec fn spec_count(s: Seq<(String, CardCounts)>, id: Seq<char>, foil: bool) -> nat
    decreases s.len(),
{
    if s.len() == 0 {
        0
    } else if s[0].0@ == id {
        if foil {
            s[0].1.foil as nat
        } else {
            s[0].1.non_foil as nat
        }
    } else {
        spec_count(s.drop_first(), id, foil)
    }
}

/// Whether the store holds an entry for `id`.
pub open spec fn spec_present(s: Seq<(String, CardCounts)>, id: Seq<char>) -> bool {
    exists|i: int| 0 <= i < s.len() && (#[trigger] s[i]).0@ == id
}

/// Sum of both counts of the entries from index `i` on.
pub open spec fn spec_total_from(s: Seq<(String, CardCounts)>, i: int) -> nat
    decreases s.len() - i,
{
    if i < 0 || i >= s.len() {
        0
    } else {
        (s[i].1.non_foil + s[i].1.foil + spec_total_from(s, i + 1)) as nat
    }
}

/// Sum of both counts over the whole store.
pub open spec fn spec_total(s: Seq<(String, CardCounts)>) -> nat {
    spec_total_from(s, 0)
}

/// The history's file names, newest first, at most the last hundred and
/// twenty entries.
pub open spec fn recent_window(h: Seq<HistoryEntry>) -> Seq<Seq<char>> {
    let names = h.reverse().map_values(|e: HistoryEntry| e.file_name@);
    if names.len() <= 120 {
        names
    } else {
        names.take(120)
    }
}

/// The first occurrences among the names from position `i` on, given the
/// names already seen, keeping at most `keep` of them.
pub open spec fn spec_recent_from(
    s: Seq<Seq<char>>,
    i: int,
    keep: int,
    seen: Seq<Seq<char>>,
) -> Seq<Seq<char>>
    decreases s.len() - i,
{
    if i < 0 || i >= s.len() || keep <= 0 {
        Seq::empty()
    } else if seen.contains(s[i]) {
        spec_recent_from(s, i + 1, keep, seen)
    } else {
        seq![s[i]] + spec_recent_from(s, i + 1, keep - 1, seen.push(s[i]))
    }
}

/// The most recent file names: among the last hundred and twenty history
/// entries, newest first, the first occurrence of each name, at most sixty.
pub open spec fn spec_recent(h: Seq<HistoryEntry>) -> Seq<Seq<char>> {
    spec_recent_from(recent_window(h), 0, 60, Seq::empty())
}

proof fn lemma_count_first_match(s: Seq<(String, CardCounts)>, id: Seq<char>, j: int, foil: bool)
    requires
        0 <= j < s.len(),
        s[j].0@ == id,
        forall|i: int| 0 <= i < j ==> (#[trigger] s[i]).0@ != id,
    ensures
        spec_count(s, id, foil) == if foil {
            s[j].1.foil as nat
        } else {
            s[j].1.non_foil as nat
        },
    decreases j,
{
    if j > 0 {
        lemma_count_first_match(s.drop_first(), id, j - 1, foil);
    }
}

proof fn lemma_count_absent(s: Seq<(String, CardCounts)>, id: Seq<char>, foil: bool)
    requires
        forall|i: int| 0 <= i < s.len() ==> (#[trigger] s[i]).0@ != id,
    ensures
        spec_count(s, id, foil) == 0,
    decreases s.len(),
{
    if s.len() > 0 {
        lemma_count_absent(s.drop_first(), id, foil);
    }
}

proof fn lemma_count_same_relevant(
    s: Seq<(String, CardCounts)>,
    t: Seq<(String, CardCounts)>,
    id: Seq<char>,
    foil: bool,
)
    requires
        s.len() == t.len(),
        forall|k: int| 0 <= k < s.len() ==> (#[trigger] s[k]).0@ == (#[trigger] t[k]).0@,
        forall|k: int| 0 <= k < s.len() && (#[trigger] s[k]).0@ == id ==> s[k].1 == t[k].1,
    ensures
        spec_count(s, id, foil) == spec_count(t, id, foil),
    decreases s.len(),
{
    if s.len() > 0 {
        lemma_count_same_relevant(s.drop_first(), t.drop_first(), id, foil);
    }
}

proof fn lemma_count_push_other(
    s: Seq<(String, CardCounts)>,
    e: (String, CardCounts),
    id: Seq<char>,
    foil: bool,
)
    requires
        e.0@ != id,
    ensures
        spec_count(s.push(e), id, foil) == spec_count(s, id, foil),
    decreases s.len(),
{
    let p = s.push(e);
    if s.len() == 0 {
        assert(p[0] == e);
        assert(p.drop_first() =~= Seq::<(String, CardCounts)>::empty());
        assert(spec_count(p, id, foil) == spec_count(p.drop_first(), id, foil));
        assert(spec_count(p.drop_first(), id, foil) == 0);
    } else {
        assert(p[0] == s[0]);
        assert(p.drop_first() =~= s.drop_first().push(e));
        lemma_count_push_other(s.drop_first(), e, id, foil);
        if s[0].0@ == id {
            assert(spec_count(p, id, foil) == spec_count(s, id, foil));
        } else {
            assert(spec_count(p, id, foil) == spec_count(p.drop_first(), id, foil));
            assert(spec_count(p.drop_first(), id, foil) == spec_count(
                s.drop_first().push(e),
                id,
                foil,
            ));
        }
    }
}

proof fn lemma_count_push_new(
    s: Seq<(String, CardCounts)>,
    e: (String, CardCounts),
    foil: bool,
)
    requires
        forall|i: int| 0 <= i < s.len() ==> (#[trigger] s[i]).0@ != e.0@,
    ensures
        spec_count(s.push(e), e.0@, foil) == if foil {
            e.1.foil as nat
        } else {
            e.1.non_foil as nat
        },
    decreases s.len(),
{
    if s.len() == 0 {
        assert(s.push(e)[0] == e);
    } else {
        assert(s.push(e)[0] == s[0]);
        assert(s.push(e).drop_first() =~= s.drop_first().push(e));
        lemma_count_push_new(s.drop_first(), e, foil);
    }
}

impl CardDatabase {
    /// Keys are unique: no identifier has two entries.
    pub open spec fn wf(self) -> bool {
        forall|i: int, j: int|
            0 <= i < j < self.database@.len() ==> (#[trigger] self.database@[i]).0@ != (
            #[trigger] self.database@[j]).0@
    }

    /// An empty store with no history.
    pub fn new() -> (r: CardDatabase)
        ensures
            r.wf(),
            r.database@.len() == 0,
            r.history@.len() == 0,
    {
        CardDatabase { database: Vec::new(), history: Vec::new() }
    }

    /// Append a history entry recording the current count of `file_name` on
    /// the chosen side; the counts themselves do not change.  The entry must
    /// exist.
    pub fn record_change(&mut self, file_name: String, change_type: ChangeType, foil: bool)
        requires
            old(self).wf(),
            spec_present(old(self).database@, file_name@),
        ensures
            final(self).wf(),
            final(self).database == old(self).database,
            final(self).history@.len() == old(self).history@.len() + 1,
            forall|i: int|
                0 <= i < old(self).history@.len() ==> final(self).history@[i] == old(
                    self,
                ).history@[i],
            final(self).history@.last().file_name == file_name,
            final(self).history@.last().change_type == change_type,
            final(self).history@.last().foil == foil,
            final(self).history@.last().updated_value == spec_count(
                old(self).database@,
                file_name@,
                foil,
            ),
    {
        let ghost db = self.database@;
        let n: usize = self.database.len();
        let mut j: usize = 0;
        let mut at: usize = 0;
        let mut found: bool = false;
        while j < n
            invariant
                n == db.len(),
                db == self.database@,
                0 <= j <= n,
                found ==> 0 <= at < j && db[at as int].0@ == file_name@ && (forall|i: int|
                    0 <= i < at ==> (#[trigger] db[i]).0@ != file_name@),
                !found ==> forall|i: int| 0 <= i < j ==> (#[trigger] db[i]).0@ != file_name@,
            decreases n - j,
        {
            if !found && self.database[j].0 == file_name {
                at = j;
                found = true;
            }
            j = j + 1;
        }
        proof {
            assert(found) by {
                if !found {
                    assert(forall|i: int| 0 <= i < db.len() ==> (#[trigger] db[i]).0@ != file_name@);
                }
            }
            lemma_count_first_match(db, file_name@, at as int, foil);
        }
        let counts: CardCounts = self.database[at].1;
        let updated_value: usize = if foil {
            counts.foil
        } else {
            counts.non_foil
        };
        let entry = HistoryEntry { file_name, change_type, updated_value, foil };
        self.history.push(entry);
    }

    /// Raise the count of `id` on the chosen side by one, creating the
    /// entry when it is new, record the change, and say whether the count
    /// just became one: whether this was the first copy.
    pub fn inc(&mut self, id: &str, foil: bool) -> (r: bool)
        requires
            old(self).wf(),
            spec_count(old(self).database@, id@, foil) < usize::MAX,
        ensures
            final(self).wf(),
            spec_count(final(self).database@, id@, foil) == spec_count(
                old(self).database@,
                id@,
                foil,
            ) + 1,
            spec_count(final(self).database@, id@, !foil) == spec_count(
                old(self).database@,
                id@,
                !foil,
            ),
            forall|other: Seq<char>, b: bool|
                other != id@ ==> #[trigger] spec_count(final(self).database@, other, b)
                    == spec_count(old(self).database@, other, b),
            r == (spec_count(final(self).database@, id@, foil) == 1),
            final(self).history@.len() == old(self).history@.len() + 1,
            forall|i: int|
                0 <= i < old(self).history@.len() ==> final(self).history@[i] == old(
                    self,
                ).history@[i],
            final(self).history@.last().file_name@ == id@,
            final(self).history@.last().change_type == ChangeType::Inc,
            final(self).history@.last().foil == foil,
            final(self).history@.last().updated_value == spec_count(
                final(self).database@,
                id@,
                foil,
            ),
    {
        let key: String = id.to_owned();
        let ghost db = self.database@;
        let n: usize = self.database.len();
        let mut j: usize = 0;
        let mut at: usize = 0;
        let mut found: bool = false;
        while j < n
            invariant
                n == db.len(),
                db == self.database@,
                key@ == id@,
                0 <= j <= n,
                found ==> 0 <= at < j && db[at as int].0@ == id@ && (forall|i: int|
                    0 <= i < at ==> (#[trigger] db[i]).0@ != id@),
                !found ==> forall|i: int| 0 <= i < j ==> (#[trigger] db[i]).0@ != id@,
            decreases n - j,
        {
            if !found && self.database[j].0 == key {
                at = j;
                found = true;
            }
            j = j + 1;
        }
        let result: bool;
        if found {
            proof {
                lemma_count_first_match(db, id@, at as int, foil);
                lemma_count_first_match(db, id@, at as int, !foil);
            }
            let counts: CardCounts = self.database[at].1;
            let new_counts: CardCounts = if foil {
                CardCounts { non_foil: counts.non_foil, foil: counts.foil + 1 }
            } else {
                CardCounts { non_foil: counts.non_foil + 1, foil: counts.foil }
            };
            self.database[at].1 = new_counts;
            result = if foil {
                new_counts.foil == 1
            } else {
                new_counts.non_foil == 1
            };
            proof {
                let t = self.database@;
                assert(forall|k: int| 0 <= k < db.len() ==> (#[trigger] db[k]).0@ == t[k].0@);
                lemma_count_first_match(t, id@, at as int, foil);
                lemma_count_first_match(t, id@, at as int, !foil);
                assert(forall|other: Seq<char>, b: bool|
                    other != id@ ==> #[trigger] spec_count(t, other, b) == spec_count(
                        db,
                        other,
                        b,
                    )) by {
                    assert forall|other: Seq<char>, b: bool| other != id@ implies #[trigger] spec_count(
                        t,
                        other,
                        b,
                    ) == spec_count(db, other, b) by {
                        lemma_count_same_relevant(db, t, other, b);
                    }
                }
            }
        } else {
            proof {
                lemma_count_absent(db, id@, foil);
                lemma_count_absent(db, id@, !foil);
            }
            let new_counts: CardCounts = if foil {
                CardCounts { non_foil: 0, foil: 1 }
            } else {
                CardCounts { non_foil: 1, foil: 0 }
            };
            let key2: String = key.clone();
            self.database.push((key2, new_counts));
            result = true;
            proof {
                let t = self.database@;
                let e = t.last();
                assert(t =~= db.push(e));
                lemma_count_push_new(db, e, foil);
                lemma_count_push_new(db, e, !foil);
                assert(forall|other: Seq<char>, b: bool|
                    other != id@ ==> #[trigger] spec_count(t, other, b) == spec_count(
                        db,
                        other,
                        b,
                    )) by {
                    assert forall|other: Seq<char>, b: bool| other != id@ implies #[trigger] spec_count(
                        t,
                        other,
                        b,
                    ) == spec_count(db, other, b) by {
                        lemma_count_push_other(db, e, other, b);
                    }
                }
            }
        }
        self.record_change(key, ChangeType::Inc, foil);
        result
    }

    /// Lower the count of `id` on the chosen side by one when it is
    /// positive, and record the change; a zero count stays zero but the
    /// change is still recorded.  An absent identifier changes nothing.
    pub fn dec(&mut self, id: &str, foil: bool)
        requires
            old(self).wf(),
        ensures
            final(self).wf(),
            !spec_present(old(self).database@, id@) ==> *final(self) == *old(self),
            spec_present(old(self).database@, id@) ==> ({
                let before = spec_count(old(self).database@, id@, foil);
                &&& spec_count(final(self).database@, id@, foil) == (if before > 0 {
                    (before - 1) as nat
                } else {
                    0nat
                })
                &&& spec_count(final(self).database@, id@, !foil) == spec_count(
                    old(self).database@,
                    id@,
                    !foil,
                )
                &&& forall|other: Seq<char>, b: bool|
                    other != id@ ==> #[trigger] spec_count(final(self).database@, other, b)
                        == spec_count(old(self).database@, other, b)
                &&& final(self).history@.len() == old(self).history@.len() + 1
                &&& (forall|i: int|
                    0 <= i < old(self).history@.len() ==> final(self).history@[i] == old(
                        self,
                    ).history@[i])
                &&& final(self).history@.last().file_name@ == id@
                &&& final(self).history@.last().change_type == ChangeType::Dec
                &&& final(self).history@.last().foil == foil
                &&& final(self).history@.last().updated_value == spec_count(
                    final(self).database@,
                    id@,
                    foil,
                )
            }),
    {
        let key: String = id.to_owned();
        let ghost db = self.database@;
        let n: usize = self.database.len();
        let mut j: usize = 0;
        let mut at: usize = 0;
        let mut found: bool = false;
        while j < n
            invariant
                n == db.len(),
                db == self.database@,
                key@ == id@,
                0 <= j <= n,
                found ==> 0 <= at < j && db[at as int].0@ == id@ && (forall|i: int|
                    0 <= i < at ==> (#[trigger] db[i]).0@ != id@),
                !found ==> forall|i: int| 0 <= i < j ==> (#[trigger] db[i]).0@ != id@,
            decreases n - j,
        {
            if !found && self.database[j].0 == key {
                at = j;
                found = true;
            }
            j = j + 1;
        }
        if !found {
            return ;
        }
        proof {
            lemma_count_first_match(db, id@, at as int, foil);
            lemma_count_first_match(db, id@, at as int, !foil);
        }
        let counts: CardCounts = self.database[at].1;
        let new_counts: CardCounts = if foil && counts.foil > 0 {
            CardCounts { non_foil: counts.non_foil, foil: counts.foil - 1 }
        } else if !foil && counts.non_foil > 0 {
            CardCounts { non_foil: counts.non_foil - 1, foil: counts.foil }
        } else {
            counts
        };
        self.database[at].1 = new_counts;
        proof {
            let t = self.database@;
            assert(forall|k: int| 0 <= k < db.len() ==> (#[trigger] db[k]).0@ == t[k].0@);
            lemma_count_first_match(t, id@, at as int, foil);
            lemma_count_first_match(t, id@, at as int, !foil);
            assert(forall|other: Seq<char>, b: bool|
                other != id@ ==> #[trigger] spec_count(t, other, b) == spec_count(
                    db,
                    other,
                    b,
                )) by {
                assert forall|other: Seq<char>, b: bool| other != id@ implies #[trigger] spec_count(
                    t,
                    other,
                    b,
                ) == spec_count(db, other, b) by {
                    lemma_count_same_relevant(db, t, other, b);
                }
            }
        }
        self.record_change(key, ChangeType::Dec, foil);
    }

    /// Write the count of `id` on the chosen side, creating the entry when
    /// it is new, and record the change.
    pub fn set(&mut self, id: &str, value: usize, foil: bool)
        requires
            old(self).wf(),
        ensures
            final(self).wf(),
            spec_count(final(self).database@, id@, foil) == value,
            spec_count(final(self).database@, id@, !foil) == spec_count(
                old(self).database@,
                id@,
                !foil,
            ),
            forall|other: Seq<char>, b: bool|
                other != id@ ==> #[trigger] spec_count(final(self).database@, other, b)
                    == spec_count(old(self).database@, other, b),
            final(self).history@.len() == old(self).history@.len() + 1,
            forall|i: int|
                0 <= i < old(self).history@.len() ==> final(self).history@[i] == old(
                    self,
                ).history@[i],
            final(self).history@.last().file_name@ == id@,
            final(self).history@.last().change_type == ChangeType::SetTo,
            final(self).history@.last().foil == foil,
            final(self).history@.last().updated_value == value,
    {
        let key: String = id.to_owned();
        let ghost db = self.database@;
        let n: usize = self.database.len();
        let mut j: usize = 0;
        let mut at: usize = 0;
        let mut found: bool = false;
        while j < n
            invariant
                n == db.len(),
                db == self.database@,
                key@ == id@,
                0 <= j <= n,
                found ==> 0 <= at < j && db[at as int].0@ == id@ && (forall|i: int|
                    0 <= i < at ==> (#[trigger] db[i]).0@ != id@),
                !found ==> forall|i: int| 0 <= i < j ==> (#[trigger] db[i]).0@ != id@,
            decreases n - j,
        {
            if !found && self.database[j].0 == key {
                at = j;
                found = true;
            }
            j = j + 1;
        }
        if found {
            proof {
                lemma_count_first_match(db, id@, at as int, foil);
                lemma_count_first_match(db, id@, at as int, !foil);
            }
            let counts: CardCounts = self.database[at].1;
            let new_counts: CardCounts = if foil {
                CardCounts { non_foil: counts.non_foil, foil: value }
            } else {
                CardCounts { non_foil: value, foil: counts.foil }
            };
            self.database[at].1 = new_counts;
            proof {
                let t = self.database@;
                assert(forall|k: int| 0 <= k < db.len() ==> (#[trigger] db[k]).0@ == t[k].0@);
                lemma_count_first_match(t, id@, at as int, foil);
                lemma_count_first_match(t, id@, at as int, !foil);
                assert(forall|other: Seq<char>, b: bool|
                    other != id@ ==> #[trigger] spec_count(t, other, b) == spec_count(
                        db,
                        other,
                        b,
                    )) by {
                    assert forall|other: Seq<char>, b: bool| other != id@ implies #[trigger] spec_count(
                        t,
                        other,
                        b,
                    ) == spec_count(db, other, b) by {
                        lemma_count_same_relevant(db, t, other, b);
                    }
                }
            }
        } else {
            proof {
                lemma_count_absent(db, id@, foil);
                lemma_count_absent(db, id@, !foil);
            }
            let new_counts: CardCounts = if foil {
                CardCounts { non_foil: 0, foil: value }
            } else {
                CardCounts { non_foil: value, foil: 0 }
            };
            let key2: String = key.clone();
            self.database.push((key2, new_counts));
            proof {
                let t = self.database@;
                let e = t.last();
                assert(t =~= db.push(e));
                lemma_count_push_new(db, e, foil);
                lemma_count_push_new(db, e, !foil);
                assert(forall|other: Seq<char>, b: bool|
                    other != id@ ==> #[trigger] spec_count(t, other, b) == spec_count(
                        db,
                        other,
                        b,
                    )) by {
                    assert forall|other: Seq<char>, b: bool| other != id@ implies #[trigger] spec_count(
                        t,
                        other,
                        b,
                    ) == spec_count(db, other, b) by {
                        lemma_count_push_other(db, e, other, b);
                    }
                }
            }
        }
        self.record_change(key, ChangeType::SetTo, foil);
    }

    /// The non-foil count of `id`, zero when absent.
    pub fn get(&self, id: &str) -> (r: usize)
        requires
            self.wf(),
        ensures
            r == spec_count(self.database@, id@, false),
    {
        self.count_of(id, false)
    }

    /// The foil count of `id`, zero when absent.
    pub fn get_foil(&self, id: &str) -> (r: usize)
        requires
            self.wf(),
        ensures
            r == spec_count(self.database@, id@, true),
    {
        self.count_of(id, true)
    }

    fn count_of(&self, id: &str, foil: bool) -> (r: usize)
        requires
            self.wf(),
        ensures
            r == spec_count(self.database@, id@, foil),
    {
        let key: String = id.to_owned();
        let ghost db = self.database@;
        let n: usize = self.database.len();
        let mut j: usize = 0;
        while j < n
            invariant
                n == db.len(),
                db == self.database@,
                key@ == id@,
                0 <= j <= n,
                forall|i: int| 0 <= i < j ==> (#[trigger] db[i]).0@ != id@,
            decreases n - j,
        {
            if self.database[j].0 == key {
                proof {
                    lemma_count_first_match(db, id@, j as int, foil);
                }
                let counts: CardCounts = self.database[j].1;
                return if foil {
                    counts.foil
                } else {
                    counts.non_foil
                };
            }
            j = j + 1;
        }
        proof {
            lemma_count_absent(db, id@, foil);
        }
        0
    }

    /// The file names of the most recent history entries, newest first:
    /// among the last hundred and twenty entries, the first occurrence of
    /// each file name, at most sixty names.
    pub fn recent_files(&self) -> (r: Vec<String>)
        ensures
            r@.map_values(|x: String| x@) == spec_recent(self.history@),
    {
        let ghost names = recent_window(self.history@);
        let total: usize = self.history.len();
        let window: usize = if total <= 120 {
            total
        } else {
            120
        };
        proof {
            assert(names.len() == window);
            assert(forall|t: int|
                0 <= t < window ==> names[t] == self.history@[total - 1 - t].file_name@);
        }
        let mut out: Vec<String> = Vec::new();
        let mut t: usize = 0;
        proof {
            assert(out@.map_values(|x: String| x@) =~= Seq::<Seq<char>>::empty());
            assert(Seq::<Seq<char>>::empty() + spec_recent_from(
                names,
                0,
                60,
                Seq::<Seq<char>>::empty(),
            ) =~= spec_recent_from(names, 0, 60, Seq::<Seq<char>>::empty()));
        }
        while t < window && out.len() < 60
            invariant
                names == recent_window(self.history@),
                total == self.history@.len(),
                window == (if total <= 120 {
                    total as int
                } else {
                    120int
                }),
                names.len() == window,
                forall|k: int|
                    0 <= k < window ==> names[k] == self.history@[total - 1 - k].file_name@,
                0 <= t <= window,
                out@.len() <= 60,
                spec_recent(self.history@) == out@.map_values(|x: String| x@)
                    + spec_recent_from(
                    names,
                    t as int,
                    60 - out@.len() as int,
                    out@.map_values(|x: String| x@),
                ),
            decreases window - t,
        {
            let ghost ov = out@.map_values(|x: String| x@);
            let idx: usize = total - 1 - t;
            let name: &String = &self.history[idx].file_name;
            proof {
                assert(name@ == names[t as int]);
            }
            let n_out: usize = out.len();
            let mut j: usize = 0;
            let mut dup: bool = false;
            while j < n_out
                invariant
                    n_out == out@.len(),
                    ov == out@.map_values(|x: String| x@),
                    name@ == names[t as int],
                    0 <= j <= n_out,
                    dup ==> ov.contains(name@),
                    !dup ==> forall|k: int| 0 <= k < j ==> ov[k] != name@,
                decreases n_out - j,
            {
                if !dup && out[j] == *name {
                    proof {
                        assert(ov[j as int] == name@);
                    }
                    dup = true;
                }
                j = j + 1;
            }
            proof {
                assert(dup == ov.contains(name@));
            }
            if !dup {
                let copy: String = name.clone();
                out.push(copy);
                proof {
                    assert(out@.map_values(|x: String| x@) =~= ov.push(name@));
                    assert(ov + (seq![names[t as int]] + spec_recent_from(
                        names,
                        t as int + 1,
                        60 - ov.len() as int - 1,
                        ov.push(names[t as int]),
                    )) =~= ov.push(names[t as int]) + spec_recent_from(
                        names,
                        t as int + 1,
                        60 - ov.len() as int - 1,
                        ov.push(names[t as int]),
                    ));
                }
            }
            t = t + 1;
        }
        proof {
            let ov = out@.map_values(|x: String| x@);
            assert(spec_recent_from(names, t as int, 60 - ov.len() as int, ov)
                =~= Seq::<Seq<char>>::empty());
            assert(ov + Seq::<Seq<char>>::empty() =~= ov);
        }
        out
    }

    /// Total number of copies in the store, both sides of every entry.
    pub fn total_cards(&self) -> (r: usize)
        requires
            spec_total(self.database@) <= usize::MAX,
        ensures
            r == spec_total(self.database@),
    {
        let ghost db = self.database@;
        let n: usize = self.database.len();
        let mut acc: usize = 0;
        let mut i: usize = 0;
        while i < n
            invariant
                n == db.len(),
                db == self.database@,
                0 <= i <= n,
                acc + spec_total_from(db, i as int) == spec_total_from(db, 0),
                spec_total(db) <= usize::MAX,
            decreases n - i,
        {
            let counts: CardCounts = self.database[i].1;
            acc = acc + counts.non_foil + counts.foil;
            i = i + 1;
        }
        acc
    }
}

} // verus!
