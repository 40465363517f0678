use crate::date::Date;
use crate::error::BirthdayError;
use crate::person::Person;
use vstd::prelude::*;

verus! {

/// The record a store holds for `user_id`, if any: the first (and, in a
/// well-formed store, only) entry with that key.
pub open spec fn spec_lookup(s: Seq<Person>, user_id: u64) -> Option<Person>
    decreases s.len(),
{
    if s.len() == 0 {
        None
    } else if s[0].user_id == user_id {
        Some(s[0])
    } else {
        spec_lookup(s.drop_first(), user_id)
    }
}

/// The table with every record of `user_id` taken out.
pub open spec fn spec_remove(s: Seq<Person>, user_id: u64) -> Seq<Person> {
    s.filter(|p: Person| p.user_id != user_id)
}

/// The table with the birthday of `user_id` rewritten to `d`; names and all
/// other records stay as they were.
pub open spec fn spec_set_birthday(s: Seq<Person>, user_id: u64, d: Date) -> Seq<Person> {
    s.map_values(
        |p: Person|
            if p.user_id == user_id {
                Person { birthday: d, name: p.name, user_id: p.user_id }
            } else {
                p
            },
    )
}

/// The records whose birthday falls on the given month and day, in table
/// order, whatever their year.
pub open spec fn spec_due(s: Seq<Person>, month: u32, day: u32) -> Seq<Person> {
    s.filter(|p: Person| p.birthday.month == month && p.birthday.day == day)
}

/// A table of birthday records keyed by user: at most one record per user,
/// every stored birthday a real calendar date.
pub struct RecordStore {
    records: Vec<Person>,
}

impl View for RecordStore {
    type V = Seq<Person>;

    closed spec fn view(&self) -> Seq<Person> {
        self.records@
    }
}

impl RecordStore {
    /// At most one record per user, and every stored date real.
    pub open spec fn wf(self) -> bool {
        &&& forall|i: int, j: int|
            #![trigger self@[i], self@[j]]
            0 <= i < j < self@.len() ==> self@[i].user_id != self@[j].user_id
        &&& forall|i: int| 0 <= i < self@.len() ==> (#[trigger] self@[i]).birthday.wf()
    }

    pub fn new() -> (r: RecordStore)
        ensures
            r@ == Seq::<Person>::empty(),
            r.wf(),
    {
        RecordStore { records: Vec::new() }
    }

    pub fn len(&self) -> (r: usize)
        ensures
            r == self@.len(),
    {
        self.records.len()
    }

    /// The index holding `user_id`, if any; scans from the front.
    fn find_index(&self, user_id: u64) -> (r: Option<usize>)
        ensures
            match r {
                Some(i) => i < self@.len() && self@[i as int].user_id == user_id && forall|j: int|
                    0 <= j < i ==> (#[trigger] self@[j]).user_id != user_id,
                None => forall|j: int|
                    0 <= j < self@.len() ==> (#[trigger] self@[j]).user_id != user_id,
            },
    {
        let n = self.records.len();
        let mut i: usize = 0;
        while i < n
            invariant
                i <= n == self@.len(),
                forall|j: int| 0 <= j < i ==> (#[trigger] self@[j]).user_id != user_id,
            decreases n - i,
        {
            if self.records[i].user_id == user_id {
                return Some(i);
            }
            i = i + 1;
        }
        None
    }

    /// Reads the record for `user_id`; `NotFound` exactly when none is
    /// stored. The store is unchanged.
    pub fn get(&self, user_id: u64) -> (r: Result<Person, BirthdayError>)
        ensures
            match r {
                Ok(p) => spec_lookup(self@, user_id) == Some(p),
                Err(e) => e == BirthdayError::NotFound && spec_lookup(self@, user_id) is None,
            },
    {
        match self.find_index(user_id) {
            Some(i) => {
                proof {
                    lemma_lookup_found(self@, i as int);
                }
                Ok(self.records[i].clone())
            },
            None => {
                proof {
                    lemma_lookup_none(self@, user_id);
                }
                Err(BirthdayError::NotFound)
            },
        }
    }

    /// Inserts a new record. Fails with `Conflict`, and changes nothing,
    /// exactly when the user already has one; otherwise the record is
    /// appended.
    pub fn create(&mut self, p: Person) -> (r: Result<(), BirthdayError>)
        requires
            old(self).wf(),
            p.birthday.wf(),
        ensures
            final(self).wf(),
            match r {
                Ok(()) => spec_lookup(old(self)@, p.user_id) is None && final(self)@ == old(
                    self,
                )@.push(p),
                Err(e) => e == BirthdayError::Conflict && spec_lookup(old(self)@, p.user_id)
                    is Some && final(self)@ == old(self)@,
            },
    {
        match self.find_index(p.user_id) {
            Some(i) => {
                proof {
                    lemma_lookup_found(self@, i as int);
                }
                Err(BirthdayError::Conflict)
            },
            None => {
                proof {
                    lemma_lookup_none(self@, p.user_id);
                }
                self.records.push(p);
                Ok(())
            },
        }
    }

    /// Rewrites the birthday of `user_id`, preserving the stored name and
    /// every other record; `NotFound`, and no change, exactly when the user
    /// has no record.
    pub fn update(&mut self, user_id: u64, birthday: Date) -> (r: Result<(), BirthdayError>)
        requires
            old(self).wf(),
            birthday.wf(),
        ensures
            final(self).wf(),
            match r {
                Ok(()) => spec_lookup(old(self)@, user_id) is Some && final(self)@
                    == spec_set_birthday(old(self)@, user_id, birthday),
                Err(e) => e == BirthdayError::NotFound && spec_lookup(old(self)@, user_id) is None
                    && final(self)@ == old(self)@,
            },
    {
        match self.find_index(user_id) {
            Some(i) => {
                proof {
                    lemma_lookup_found(self@, i as int);
                }
                let name = self.records[i].name.clone();
                let ghost pre = self@;
                self.records[i] = Person { birthday, name, user_id };
                proof {
                    assert forall|j: int| 0 <= j < pre.len() implies #[trigger] self@[j]
                        == spec_set_birthday(pre, user_id, birthday)[j] by {
                        if j != i {
                            assert(pre[j].user_id != user_id);
                        }
                    }
                    assert(self@ =~= spec_set_birthday(pre, user_id, birthday));
                }
                Ok(())
            },
            None => {
                proof {
                    lemma_lookup_none(self@, user_id);
                }
                Err(BirthdayError::NotFound)
            },
        }
    }

    /// Removes the record of `user_id` if one is stored and does nothing
    /// otherwise: deleting never fails, and afterwards no record for
    /// `user_id` remains.
    pub fn delete(&mut self, user_id: u64)
        requires
            old(self).wf(),
        ensures
            final(self).wf(),
            final(self)@ == spec_remove(old(self)@, user_id),
            spec_lookup(final(self)@, user_id) is None,
    {
        let ghost pred = |p: Person| p.user_id != user_id;
        match self.find_index(user_id) {
            Some(i) => {
                let ghost pre = self@;
                self.records.remove(i);
                proof {
                    lemma_filter_remove_one(pre, pred, i as int);
                    assert forall|x: int, y: int|
                        #![trigger self@[x], self@[y]]
                        0 <= x < y < self@.len() implies self@[x].user_id != self@[y].user_id by {
                        let x0: int = if x < i {
                            x
                        } else {
                            x + 1
                        };
                        let y0: int = if y < i {
                            y
                        } else {
                            y + 1
                        };
                        assert(self@[x] == pre[x0] && self@[y] == pre[y0]);
                    }
                    assert forall|j: int| 0 <= j < self@.len() implies (#[trigger] self@[j])
                        .birthday
                        .wf() by {
                        let j0: int = if j < i {
                            j
                        } else {
                            j + 1
                        };
                        assert(self@[j] == pre[j0]);
                    }
                    lemma_lookup_none(self@, user_id);
                }
            },
            None => {
                proof {
                    lemma_filter_all(self@, pred);
                    lemma_lookup_none(self@, user_id);
                }
            },
        }
    }

    /// Every record, in table order.
    pub fn list(&self) -> (r: Vec<Person>)
        ensures
            r@ == self@,
    {
        let n = self.records.len();
        let mut out: Vec<Person> = Vec::new();
        let mut i: usize = 0;
        while i < n
            invariant
                i <= n == self@.len(),
                out@ == self@.take(i as int),
            decreases n - i,
        {
            out.push(self.records[i].clone());
            proof {
                assert(self@.take(i + 1) =~= self@.take(i as int).push(self@[i as int]));
            }
            i = i + 1;
        }
        proof {
            assert(self@.take(n as int) =~= self@);
        }
        out
    }

    /// Exactly the records due on the given month and day, in table order,
    /// whatever year they store.
    pub fn list_due(&self, month: u32, day: u32) -> (r: Vec<Person>)
        ensures
            r@ == spec_due(self@, month, day),
            self.wf() ==> forall|k: int|
                0 <= k < r@.len() ==> (#[trigger] r@[k]).birthday.wf(),
    {
        let n = self.records.len();
        let mut out: Vec<Person> = Vec::new();
        let mut i: usize = 0;
        while i < n
            invariant
                i <= n == self@.len(),
                out@ == spec_due(self@.take(i as int), month, day),
                self.wf() ==> forall|k: int|
                    0 <= k < out@.len() ==> (#[trigger] out@[k]).birthday.wf(),
            decreases n - i,
        {
            let due = self.records[i].birthday.month == month && self.records[i].birthday.day
                == day;
            if due {
                out.push(self.records[i].clone());
            }
            proof {
                reveal_with_fuel(Seq::<Person>::filter, 2);
                assert(self@.take(i + 1).drop_last() =~= self@.take(i as int));
                assert(self@.take(i + 1).last() == self@[i as int]);
                assert(out@ == spec_due(self@.take(i + 1), month, day));
            }
            i = i + 1;
        }
        proof {
            assert(self@.take(n as int) =~= self@);
        }
        out
    }
}

pub proof fn lemma_lookup_none(s: Seq<Person>, user_id: u64)
    requires
        forall|j: int| 0 <= j < s.len() ==> (#[trigger] s[j]).user_id != user_id,
    ensures
        spec_lookup(s, user_id) is None,
    decreases s.len(),
{
    if s.len() > 0 {
        assert(forall|j: int|
            0 <= j < s.drop_first().len() ==> (#[trigger] s.drop_first()[j]).user_id != user_id);
        lemma_lookup_none(s.drop_first(), user_id);
    }
}

pub proof fn lemma_lookup_found(s: Seq<Person>, i: int)
    requires
        0 <= i < s.len(),
        forall|j: int| 0 <= j < i ==> (#[trigger] s[j]).user_id != s[i].user_id,
    ensures
        spec_lookup(s, s[i].user_id) == Some(s[i]),
    decreases s.len(),
{
    if i > 0 {
        assert(forall|j: int| 0 <= j < i - 1 ==> #[trigger] s.drop_first()[j] == s[j + 1]);
        assert(s.drop_first()[i - 1] == s[i]);
        lemma_lookup_found(s.drop_first(), i - 1);
    }
}

proof fn lemma_lookup_none_all(s: Seq<Person>, user_id: u64)
    requires
        spec_lookup(s, user_id) is None,
    ensures
        forall|j: int| 0 <= j < s.len() ==> (#[trigger] s[j]).user_id != user_id,
    decreases s.len(),
{
    if s.len() > 0 {
        lemma_lookup_none_all(s.drop_first(), user_id);
        assert forall|j: int| 0 <= j < s.len() implies (#[trigger] s[j]).user_id != user_id by {
            if j > 0 {
                assert(s.drop_first()[j - 1] == s[j]);
            }
        }
    }
}

/// Law: creating a record for a user that has none, then reading that user,
/// returns exactly the record that was created.
pub proof fn lemma_create_then_get(s: Seq<Person>, p: Person)
    requires
        spec_lookup(s, p.user_id) is None,
    ensures
        spec_lookup(s.push(p), p.user_id) == Some(p),
    decreases s.len(),
{
    if s.len() == 0 {
        assert(s.push(p)[0] == p);
    } else {
        assert(s.push(p)[0] == s[0]);
        assert(s.push(p).drop_first() =~= s.drop_first().push(p));
        lemma_create_then_get(s.drop_first(), p);
    }
}

/// Law: after an edit of `user_id`, that user's record keeps its stored name
/// and carries the new birthday; every other user's record reads unchanged.
pub proof fn lemma_update_then_get(s: Seq<Person>, user_id: u64, d: Date, q: u64)
    ensures
        q == user_id ==> spec_lookup(spec_set_birthday(s, user_id, d), q) == match spec_lookup(
            s,
            user_id,
        ) {
            Some(p) => Some(Person { birthday: d, name: p.name, user_id: p.user_id }),
            None => None::<Person>,
        },
        q != user_id ==> spec_lookup(spec_set_birthday(s, user_id, d), q) == spec_lookup(s, q),
    decreases s.len(),
{
    let t = spec_set_birthday(s, user_id, d);
    if s.len() == 0 {
        assert(t.len() == 0);
    } else {
        assert(t[0] == if s[0].user_id == user_id {
            Person { birthday: d, name: s[0].name, user_id: s[0].user_id }
        } else {
            s[0]
        });
        assert(t.drop_first() =~= spec_set_birthday(s.drop_first(), user_id, d));
        lemma_update_then_get(s.drop_first(), user_id, d, q);
    }
}

/// Law: deleting is idempotent. Deleting a user that has no record changes
/// nothing, and deleting twice leaves exactly what deleting once leaves.
pub proof fn lemma_delete_idempotent(s: Seq<Person>, user_id: u64)
    ensures
        spec_lookup(s, user_id) is None ==> spec_remove(s, user_id) == s,
        spec_remove(spec_remove(s, user_id), user_id) == spec_remove(s, user_id),
{
    let pred = |p: Person| p.user_id != user_id;
    if spec_lookup(s, user_id) is None {
        lemma_lookup_none_all(s, user_id);
        lemma_filter_all(s, pred);
    }
    assert forall|i: int| 0 <= i < spec_remove(s, user_id).len() implies pred(
        #[trigger] spec_remove(s, user_id)[i],
    ) by {
        s.lemma_filter_pred(pred, i);
    }
    lemma_filter_all(spec_remove(s, user_id), pred);
}

/// Law: the records due on a month and day are exactly the stored records
/// whose birthday falls on that month and day, whatever year each stores.
pub proof fn lemma_due_membership(s: Seq<Person>, month: u32, day: u32, p: Person)
    ensures
        spec_due(s, month, day).contains(p) <==> s.contains(p) && p.birthday.month == month
            && p.birthday.day == day,
    decreases s.len(),
{
    reveal_with_fuel(Seq::<Person>::filter, 2);
    if s.len() == 0 {
        assert(!s.contains(p));
        assert(!spec_due(s, month, day).contains(p));
    } else {
        lemma_due_membership(s.drop_last(), month, day, p);
        let sub = spec_due(s.drop_last(), month, day);
        assert(s.contains(p) <==> s.drop_last().contains(p) || p == s.last()) by {
            if s.contains(p) {
                let i = choose|i: int| 0 <= i < s.len() && s[i] == p;
                if i < s.len() - 1 {
                    assert(s.drop_last()[i] == p);
                }
            }
            if s.drop_last().contains(p) {
                let i = choose|i: int| 0 <= i < s.drop_last().len() && s.drop_last()[i] == p;
                assert(s[i] == p);
            }
        }
        if p.birthday.month == month && p.birthday.day == day && p == s.last() {
            assert(spec_due(s, month, day).contains(p)) by {
                let d = spec_due(s, month, day);
                assert(d[d.len() - 1] == p);
            }
        }
        if spec_due(s, month, day).contains(p) {
            let d = spec_due(s, month, day);
            let i = choose|i: int| 0 <= i < d.len() && d[i] == p;
            if d.len() > sub.len() && i == d.len() - 1 {
                assert(p == s.last());
            } else {
                assert(sub[i] == p);
            }
        }
    }
}

/// A filter that keeps every element changes nothing.
proof fn lemma_filter_all(s: Seq<Person>, pred: spec_fn(Person) -> bool)
    requires
        forall|i: int| 0 <= i < s.len() ==> pred(#[trigger] s[i]),
    ensures
        s.filter(pred) == s,
    decreases s.len(),
{
    reveal_with_fuel(Seq::<Person>::filter, 2);
    if s.len() > 0 {
        assert(forall|i: int|
            0 <= i < s.drop_last().len() ==> #[trigger] s.drop_last()[i] == s[i]);
        lemma_filter_all(s.drop_last(), pred);
        assert(s.filter(pred) =~= s);
    }
}

/// A filter that drops exactly the element at `i` is the same as removing
/// that element.
proof fn lemma_filter_remove_one(s: Seq<Person>, pred: spec_fn(Person) -> bool, i: int)
    requires
        0 <= i < s.len(),
        !pred(s[i]),
        forall|j: int| 0 <= j < s.len() && j != i ==> pred(#[trigger] s[j]),
    ensures
        s.filter(pred) == s.remove(i),
    decreases s.len(),
{
    reveal_with_fuel(Seq::<Person>::filter, 2);
    if i == s.len() - 1 {
        assert(forall|j: int|
            0 <= j < s.drop_last().len() ==> #[trigger] s.drop_last()[j] == s[j]);
        lemma_filter_all(s.drop_last(), pred);
        assert(s.remove(i) =~= s.drop_last());
    } else {
        assert(forall|j: int|
            0 <= j < s.drop_last().len() ==> #[trigger] s.drop_last()[j] == s[j]);
        lemma_filter_remove_one(s.drop_last(), pred, i);
        assert(s.remove(i) =~= s.drop_last().remove(i).push(s.last()));
        assert(s.filter(pred) == s.drop_last().filter(pred).push(s.last()));
    }
}

} // verus!
