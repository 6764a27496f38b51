use vstd::prelude::*;
use crate::errors::PersonError;
use crate::person::{all_populated, views, Person, PersonView};
use crate::text::{lemma_lex_total, lemma_lex_transitive, lex_le, text_le, texts};

verus! {

/// The place of the first record with the key `uuid`, or the number of
/// records where none has it.
pub open spec fn key_index(records: Seq<PersonView>, uuid: Seq<char>) -> int
    decreases records.len(),
{
    if records.len() == 0 {
        0
    } else if records[0].uuid == uuid {
        0
    } else {
        1 + key_index(records.drop_first(), uuid)
    }
}

/// Whether some record has the key `uuid`.
pub open spec fn has_key(records: Seq<PersonView>, uuid: Seq<char>) -> bool {
    key_index(records, uuid) < records.len()
}

/// Whether no two records share a key.
pub open spec fn distinct_keys(records: Seq<PersonView>) -> bool {
    forall|i: int, j: int|
        0 <= i < j < records.len() ==> (#[trigger] records[i]).uuid != (#[trigger] records[j]).uuid
}

/// `key_index` is the one place `k` before which no record has the key and
/// at which one has it, or the end.
pub proof fn lemma_key_index(records: Seq<PersonView>, uuid: Seq<char>, k: int)
    requires
        0 <= k <= records.len(),
        forall|j: int| 0 <= j < k ==> (#[trigger] records[j]).uuid != uuid,
        k < records.len() ==> records[k].uuid == uuid,
    ensures
        key_index(records, uuid) == k,
    decreases k,
{
    if k > 0 {
        let rest = records.drop_first();
        assert forall|j: int| 0 <= j < k - 1 implies (#[trigger] rest[j]).uuid != uuid by {
            assert(rest[j] == records[j + 1]);
        }
        lemma_key_index(rest, uuid, k - 1);
    }
}

/// What `key_index` finds: nothing with the key before it, and the key at
/// it unless it is the end.
pub proof fn lemma_key_index_found(records: Seq<PersonView>, uuid: Seq<char>)
    ensures
        0 <= key_index(records, uuid) <= records.len(),
        forall|j: int| 0 <= j < key_index(records, uuid) ==> (#[trigger] records[j]).uuid != uuid,
        has_key(records, uuid) ==> records[key_index(records, uuid)].uuid == uuid,
    decreases records.len(),
{
    if records.len() > 0 && records[0].uuid != uuid {
        let rest = records.drop_first();
        lemma_key_index_found(rest, uuid);
        assert forall|j: int| 0 <= j < key_index(records, uuid) implies (#[trigger] records[j]).uuid
            != uuid by {
            if j > 0 {
                assert(records[j] == rest[j - 1]);
            }
        }
    }
}

/// Where a record that joined on `date` goes among `rows`: behind the
/// leading rows that joined on that date or later.
pub open spec fn slot(rows: Seq<PersonView>, date: Seq<char>) -> int
    decreases rows.len(),
{
    if rows.len() == 0 {
        0
    } else if lex_le(date, rows[0].joined_date) {
        1 + slot(rows.drop_first(), date)
    } else {
        0
    }
}

/// The records ordered by the date they joined, the latest first; records
/// that joined on one date keep the order in which they were created.
pub open spec fn by_joined_desc(records: Seq<PersonView>) -> Seq<PersonView>
    decreases records.len(),
{
    if records.len() == 0 {
        Seq::empty()
    } else {
        let rows = by_joined_desc(records.drop_last());
        rows.insert(slot(rows, records.last().joined_date), records.last())
    }
}

/// Whether no row joined later than a row before it.
pub open spec fn latest_first(rows: Seq<PersonView>) -> bool {
    forall|i: int, j: int|
        0 <= i < j < rows.len() ==> lex_le(
            (#[trigger] rows[j]).joined_date,
            (#[trigger] rows[i]).joined_date,
        )
}

/// `slot` is the one place `k` before which every row joined on `date` or
/// later and at which one joined earlier, or the end.
pub proof fn lemma_slot(rows: Seq<PersonView>, date: Seq<char>, k: int)
    requires
        0 <= k <= rows.len(),
        forall|j: int| 0 <= j < k ==> lex_le(date, (#[trigger] rows[j]).joined_date),
        k < rows.len() ==> !lex_le(date, rows[k].joined_date),
    ensures
        slot(rows, date) == k,
    decreases k,
{
    if k > 0 {
        let rest = rows.drop_first();
        assert(lex_le(date, rows[0].joined_date));
        assert forall|j: int| 0 <= j < k - 1 implies lex_le(date, (#[trigger] rest[j]).joined_date) by {
            assert(rest[j] == rows[j + 1]);
        }
        lemma_slot(rest, date, k - 1);
    }
}

/// What `slot` finds: every row before it joined on `date` or later, and
/// the row at it, unless it is the end, joined earlier.
pub proof fn lemma_slot_found(rows: Seq<PersonView>, date: Seq<char>)
    ensures
        0 <= slot(rows, date) <= rows.len(),
        forall|j: int| 0 <= j < slot(rows, date) ==> lex_le(date, (#[trigger] rows[j]).joined_date),
        slot(rows, date) < rows.len() ==> !lex_le(date, rows[slot(rows, date)].joined_date),
    decreases rows.len(),
{
    if rows.len() > 0 && lex_le(date, rows[0].joined_date) {
        let rest = rows.drop_first();
        lemma_slot_found(rest, date);
        let k = slot(rows, date);
        assert forall|j: int| 0 <= j < k implies lex_le(date, (#[trigger] rows[j]).joined_date) by {
            if j > 0 {
                assert(rows[j] == rest[j - 1]);
            }
        }
        if k < rows.len() {
            assert(rows[k] == rest[k - 1]);
        }
    }
}

/// A record put at its slot among rows that are latest first leaves them
/// latest first.
pub proof fn lemma_insert_keeps_order(rows: Seq<PersonView>, record: PersonView)
    requires
        latest_first(rows),
    ensures
        latest_first(rows.insert(slot(rows, record.joined_date), record)),
{
    let date = record.joined_date;
    let k = slot(rows, date);
    lemma_slot_found(rows, date);
    let after = rows.insert(k, record);
    assert forall|i: int, j: int| 0 <= i < j < after.len() implies lex_le(
        (#[trigger] after[j]).joined_date,
        (#[trigger] after[i]).joined_date,
    ) by {
        if j < k {
            assert(after[i] == rows[i] && after[j] == rows[j]);
        } else if j == k {
            assert(after[i] == rows[i]);
        } else if i == k {
            // every row behind the slot joined no later than the one at it,
            // which joined before `date`
            assert(after[j] == rows[j - 1]);
            lemma_lex_total(date, rows[k].joined_date);
            if j - 1 > k {
                assert(lex_le(rows[j - 1].joined_date, rows[k].joined_date));
                lemma_lex_transitive(rows[j - 1].joined_date, rows[k].joined_date, date);
            }
        } else if i < k {
            assert(after[i] == rows[i] && after[j] == rows[j - 1]);
        } else {
            assert(after[i] == rows[i - 1] && after[j] == rows[j - 1]);
        }
    }
}

/// The ordered records are latest first.
pub proof fn lemma_ordered_latest_first(records: Seq<PersonView>)
    ensures
        latest_first(by_joined_desc(records)),
    decreases records.len(),
{
    if records.len() > 0 {
        lemma_ordered_latest_first(records.drop_last());
        lemma_insert_keeps_order(by_joined_desc(records.drop_last()), records.last());
    }
}

/// The ordered records are the records: each as often as before, and so
/// as many.
pub proof fn lemma_ordered_same_records(records: Seq<PersonView>)
    ensures
        by_joined_desc(records).to_multiset() == records.to_multiset(),
        by_joined_desc(records).len() == records.len(),
    decreases records.len(),
{
    if records.len() > 0 {
        let front = records.drop_last();
        let rows = by_joined_desc(front);
        lemma_ordered_same_records(front);
        lemma_slot_found(rows, records.last().joined_date);
        vstd::seq_lib::to_multiset_insert(rows, slot(rows, records.last().joined_date), records.last());
        vstd::seq_lib::to_multiset_build(front, records.last());
        assert(front.push(records.last()) =~= records);
    } else {
        assert(by_joined_desc(records) =~= records);
    }
}

/// Ordering records leaves none with a field that is not filled in, if
/// there was none.
pub proof fn lemma_ordered_all_populated(records: Seq<PersonView>)
    requires
        all_populated(records),
    ensures
        all_populated(by_joined_desc(records)),
    decreases records.len(),
{
    if records.len() > 0 {
        let front = records.drop_last();
        assert forall|i: int| 0 <= i < front.len() implies (#[trigger] front[i]).populated() by {
            assert(front[i] == records[i]);
        }
        lemma_ordered_all_populated(front);
        let rows = by_joined_desc(front);
        let k = slot(rows, records.last().joined_date);
        lemma_slot_found(rows, records.last().joined_date);
        let after = rows.insert(k, records.last());
        assert forall|i: int| 0 <= i < after.len() implies (#[trigger] after[i]).populated() by {
            if i < k {
                assert(after[i] == rows[i]);
            } else if i == k {
                assert(after[i] == records.last());
            } else {
                assert(after[i] == rows[i - 1]);
            }
        }
    }
}

/// A key that a store has issued stays issued when its record is
/// dropped: no record is under it any more, and yet the store turns down a
/// new record under it. So an id is not used again after its record is
/// deleted.
pub proof fn lemma_dropped_key_not_reused(
    records: Seq<PersonView>,
    issued: Set<Seq<char>>,
    person: PersonView,
)
    requires
        distinct_keys(records),
        keys_issued(records, issued),
        has_key(records, person.uuid),
    ensures
        issued.contains(person.uuid),
        !has_key(with_deleted(records, person.uuid), person.uuid),
        with_created(with_deleted(records, person.uuid), issued, person) == with_deleted(
            records,
            person.uuid,
        ),
{
    let uuid = person.uuid;
    let k = key_index(records, uuid);
    lemma_key_index_found(records, uuid);
    assert(issued.contains(records[k].uuid));
    let rest = records.remove(k);
    assert forall|j: int| 0 <= j < rest.len() implies (#[trigger] rest[j]).uuid != uuid by {
        if j < k {
            assert(rest[j] == records[j]);
        } else {
            assert(rest[j] == records[j + 1]);
            assert(records[k].uuid != records[j + 1].uuid);
        }
    }
    lemma_key_index(rest, uuid, rest.len() as int);
}

/// The store could not carry a command out.
#[derive(Debug, Clone, Copy, PartialEq, Eq, Structural)]
pub struct StoreFault;

/// Whether every record is under a key of `issued`.
pub open spec fn keys_issued(records: Seq<PersonView>, issued: Set<Seq<char>>) -> bool {
    forall|i: int| 0 <= i < records.len() ==> issued.contains((#[trigger] records[i]).uuid)
}

/// The records after a store that has issued the keys `issued` is asked to
/// keep `person`: it joins them as the newest, unless its key was issued
/// before, to a record that is kept or to one that has been dropped since.
pub open spec fn with_created(
    records: Seq<PersonView>,
    issued: Set<Seq<char>>,
    person: PersonView,
) -> Seq<PersonView> {
    if issued.contains(person.uuid) {
        records
    } else {
        records.push(person)
    }
}

/// The keys that a store has issued after it was asked to keep `person`.
pub open spec fn issued_with(issued: Set<Seq<char>>, person: PersonView) -> Set<Seq<char>> {
    issued.insert(person.uuid)
}

/// The records after the one under `uuid`, if there is one, is dropped.
pub open spec fn with_deleted(records: Seq<PersonView>, uuid: Seq<char>) -> Seq<PersonView> {
    if has_key(records, uuid) {
        records.remove(key_index(records, uuid))
    } else {
        records
    }
}

/// The records after the one under `uuid`, if there is one, has its three
/// editable fields replaced.
pub open spec fn with_updated(
    records: Seq<PersonView>,
    uuid: Seq<char>,
    title: Seq<char>,
    level: Seq<char>,
    compensation: i32,
) -> Seq<PersonView> {
    if has_key(records, uuid) {
        let k = key_index(records, uuid);
        records.update(k, records[k].edited(title, level, compensation))
    } else {
        records
    }
}

/// A table of records kept in memory, in the order in which they were
/// created. No two of its records share a key, and it remembers every key
/// under which it has kept a record, so that none is given out twice.
pub struct MemoryStore {
    records: Vec<Person>,
    issued: Vec<String>,
}

impl View for MemoryStore {
    type V = Seq<PersonView>;

    closed spec fn view(&self) -> Seq<PersonView> {
        views(self.records@)
    }
}

impl MemoryStore {
    /// Every key under which the store has kept a record, whether the
    /// record is still kept or has been dropped.
    pub closed spec fn issued(&self) -> Set<Seq<char>> {
        texts(self.issued@).to_set()
    }

    /// What holds of every store: no two of its records share a key, and
    /// the key of every record is among the issued ones.
    pub open spec fn wf(&self) -> bool {
        distinct_keys(self@) && keys_issued(self@, self.issued())
    }

    /// A store without records, which has issued no key.
    pub fn new() -> (store: MemoryStore)
        ensures
            store@ == Seq::<PersonView>::empty(),
            store.issued() == Set::<Seq<char>>::empty(),
            store.wf(),
    {
        let store = MemoryStore { records: Vec::new(), issued: Vec::new() };
        assert(store.issued() =~= Set::<Seq<char>>::empty());
        store
    }

    /// Whether the store has ever kept a record under a key.
    pub fn was_issued(&self, uuid: &String) -> (found: bool)
        ensures
            found == self.issued().contains(uuid@),
    {
        let mut k: usize = 0;
        while k < self.issued.len()
            invariant
                k <= self.issued@.len(),
                forall|j: int| 0 <= j < k ==> (#[trigger] texts(self.issued@)[j]) != uuid@,
            decreases self.issued@.len() - k,
        {
            if self.issued[k] == *uuid {
                assert(texts(self.issued@)[k as int] == uuid@);
                return true;
            }
            k += 1;
        }
        false
    }

    /// How many records the store holds.
    pub fn len(&self) -> (n: usize)
        ensures
            n == self@.len(),
    {
        self.records.len()
    }

    fn find(&self, uuid: &String) -> (k: usize)
        ensures
            k == key_index(self@, uuid@),
            k <= self@.len(),
            k < self@.len() ==> self.records@[k as int]@.uuid == uuid@,
    {
        let mut k: usize = 0;
        while k < self.records.len()
            invariant
                k <= self.records@.len(),
                forall|j: int| 0 <= j < k ==> (#[trigger] views(self.records@)[j]).uuid != uuid@,
            decreases self.records@.len() - k,
        {
            if self.records[k].uuid == *uuid {
                proof {
                    lemma_key_index(self@, uuid@, k as int);
                }
                return k;
            }
            k += 1;
        }
        proof {
            lemma_key_index(self@, uuid@, k as int);
        }
        k
    }

    /// Every record, the most recently joined first.
    pub fn select_all(&self) -> (rows: Vec<Person>)
        ensures
            views(rows@) == by_joined_desc(self@),
    {
        let mut rows: Vec<Person> = Vec::new();
        let mut i: usize = 0;
        assert(self@.subrange(0, 0) =~= Seq::<PersonView>::empty());
        while i < self.records.len()
            invariant
                i <= self.records@.len(),
                views(rows@) == by_joined_desc(self@.subrange(0, i as int)),
            decreases self.records@.len() - i,
        {
            let person = self.records[i].clone();
            let mut k: usize = 0;
            while k < rows.len() && text_le(person.joined_date.as_str(), rows[k].joined_date.as_str())
                invariant
                    k <= rows@.len(),
                    forall|j: int|
                        0 <= j < k ==> lex_le(
                            person@.joined_date,
                            (#[trigger] views(rows@)[j]).joined_date,
                        ),
                decreases rows@.len() - k,
            {
                k += 1;
            }
            proof {
                let before = views(rows@);
                lemma_slot(before, person@.joined_date, k as int);
                let front = self@.subrange(0, i + 1);
                assert(front.drop_last() =~= self@.subrange(0, i as int));
                assert(front.last() == person@);
                assert(views(rows@.insert(k as int, person)) =~= before.insert(k as int, person@));
            }
            rows.insert(k, person);
            i += 1;
        }
        assert(self@.subrange(0, i as int) =~= self@);
        rows
    }

    /// The record under a key, if there is one.
    pub fn select(&self, uuid: &String) -> (found: Option<Person>)
        ensures
            found is Some <==> has_key(self@, uuid@),
            found matches Some(person) ==> person@ == self@[key_index(self@, uuid@)],
    {
        let k: usize = self.find(uuid);
        if k < self.records.len() {
            Some(self.records[k].clone())
        } else {
            None
        }
    }

    /// Keeps `person` as the newest record and counts its key as issued,
    /// unless the key was issued before, to a record that is kept or to one
    /// that has been dropped since: then the store stays as it is and hands
    /// the record back as `Err`.
    pub fn create(&mut self, person: Person) -> (outcome: Result<Person, Person>)
        requires
            old(self).wf(),
        ensures
            outcome is Ok <==> !old(self).issued().contains(person@.uuid),
            outcome matches Ok(stored) ==> {
                &&& stored@ == person@
                &&& !has_key(old(self)@, person@.uuid)
                &&& final(self)@ == old(self)@.push(person@)
                &&& final(self).issued() == old(self).issued().insert(person@.uuid)
            },
            outcome matches Err(refused) ==> {
                &&& refused == person
                &&& final(self)@ == old(self)@
                &&& final(self).issued() == old(self).issued()
            },
            final(self).wf(),
    {
        if self.was_issued(&person.uuid) {
            return Err(person);
        }
        let stored = person.clone();
        let key = person.uuid.clone();
        proof {
            lemma_key_index_found(self@, person@.uuid);
            let earlier = texts(self.issued@);
            assert(texts(self.issued@.push(key)) =~= earlier.push(person@.uuid));
            earlier.lemma_push_to_set_commute(person@.uuid);
            let before = views(self.records@);
            let after = views(self.records@.push(person));
            assert(after =~= before.push(person@));
            assert forall|i: int, j: int| 0 <= i < j < after.len() implies (#[trigger] after[i]).uuid
                != (#[trigger] after[j]).uuid by {
                if j < before.len() {
                    assert(after[i] == before[i] && after[j] == before[j]);
                } else {
                    assert(after[i] == before[i]);
                }
            }
        }
        self.records.push(person);
        self.issued.push(key);
        Ok(stored)
    }

    /// Writes `person` over the record that has its key and hands back what
    /// is then stored; `None`, and nothing changed, where no record has it.
    pub fn merge(&mut self, person: Person) -> (written: Option<Person>)
        requires
            old(self).wf(),
        ensures
            written is Some <==> has_key(old(self)@, person@.uuid),
            written matches Some(stored) ==> stored@ == person@ && final(self)@ == old(self)@.update(
                key_index(old(self)@, person@.uuid),
                person@,
            ),
            written is None ==> final(self)@ == old(self)@,
            final(self).issued() == old(self).issued(),
            final(self).wf(),
    {
        let k: usize = self.find(&person.uuid);
        if k >= self.records.len() {
            return None;
        }
        let stored = person.clone();
        proof {
            let before = views(self.records@);
            let after = views(self.records@.update(k as int, person));
            assert(after =~= before.update(k as int, person@));
            assert forall|i: int, j: int| 0 <= i < j < after.len() implies (#[trigger] after[i]).uuid
                != (#[trigger] after[j]).uuid by {
                assert(after[i].uuid == before[i].uuid);
                assert(after[j].uuid == before[j].uuid);
            }
            assert forall|i: int| 0 <= i < after.len() implies self.issued().contains(
                (#[trigger] after[i]).uuid,
            ) by {
                assert(after[i].uuid == before[i].uuid);
            }
        }
        self.records.set(k, person);
        Some(stored)
    }

    /// Drops the record under a key and hands it back; `None`, and nothing
    /// changed, where no record has it. The key stays issued.
    pub fn delete(&mut self, uuid: &String) -> (removed: Option<Person>)
        requires
            old(self).wf(),
        ensures
            removed is Some <==> has_key(old(self)@, uuid@),
            removed matches Some(person) ==> person@ == old(self)@[key_index(old(self)@, uuid@)]
                && final(self)@ == old(self)@.remove(key_index(old(self)@, uuid@)),
            removed is None ==> final(self)@ == old(self)@,
            final(self).issued() == old(self).issued(),
            final(self).wf(),
    {
        let k: usize = self.find(uuid);
        if k >= self.records.len() {
            return None;
        }
        proof {
            let before = views(self.records@);
            let after = views(self.records@.remove(k as int));
            assert(after =~= before.remove(k as int));
            assert forall|i: int, j: int| 0 <= i < j < after.len() implies (#[trigger] after[i]).uuid
                != (#[trigger] after[j]).uuid by {
                let oi = if i < k { i } else { i + 1 };
                let oj = if j < k { j } else { j + 1 };
                assert(after[i] == before[oi] && after[j] == before[oj]);
            }
        }
        let person = self.records.remove(k);
        Some(person)
    }
}

/// What a query's answer means to the gateway: the rows, or nothing where
/// the store failed.
pub fn listed(answer: Result<Vec<Person>, StoreFault>) -> (rows: Option<Vec<Person>>)
    ensures
        rows == match answer {
            Ok(found) => Some(found),
            Err(_) => None::<Vec<Person>>,
        },
{
    match answer {
        Ok(found) => Some(found),
        Err(_) => None,
    }
}

/// What the answer to a create means: the stored record, or nothing where
/// the store turned the write down.
pub fn created(answer: Result<Option<Person>, StoreFault>) -> (stored: Option<Person>)
    ensures
        stored == match answer {
            Ok(row) => row,
            Err(_) => None::<Person>,
        },
{
    match answer {
        Ok(row) => row,
        Err(_) => None,
    }
}

/// What the answer to a delete means: the dropped record, or that there
/// was none, or a failure of the store.
pub fn deleted(answer: Result<Option<Person>, StoreFault>) -> (outcome: Result<
    Option<Person>,
    PersonError,
>)
    ensures
        outcome == match answer {
            Ok(row) => Ok::<Option<Person>, PersonError>(row),
            Err(_) => Err::<Option<Person>, PersonError>(PersonError::PersonDeleteFailure),
        },
{
    match answer {
        Ok(row) => Ok(row),
        Err(_) => Err(PersonError::PersonDeleteFailure),
    }
}

/// The first phase of an update, once the store has answered the fetch:
/// the record to write back, which is the fetched one with the three
/// editable fields replaced. Its key, name and joining date are those of the
/// fetched record. `PersonNotFound` where the store has no such record or
/// the fetch failed.
pub fn merged(
    fetched: Result<Option<Person>, StoreFault>,
    title: String,
    level: String,
    compensation: i32,
) -> (outcome: Result<Person, PersonError>)
    ensures
        match fetched {
            Ok(Some(found)) => (outcome matches Ok(person) && person@ == found@.edited(
                title@,
                level@,
                compensation,
            )),
            _ => outcome == Err::<Person, PersonError>(PersonError::PersonNotFound),
        },
{
    match fetched {
        Ok(Some(found)) => Ok(
            Person::new(found.uuid, found.name, title, level, compensation, found.joined_date),
        ),
        _ => Err(PersonError::PersonNotFound),
    }
}

/// The second phase of an update, once the store has answered the write:
/// the record as stored, or that it was gone by then, or
/// `PersonUpdateFailure` where the store turned the write down.
pub fn written(answer: Result<Option<Person>, StoreFault>) -> (outcome: Result<
    Option<Person>,
    PersonError,
>)
    ensures
        outcome == match answer {
            Ok(row) => Ok::<Option<Person>, PersonError>(row),
            Err(_) => Err::<Option<Person>, PersonError>(PersonError::PersonUpdateFailure),
        },
{
    match answer {
        Ok(row) => Ok(row),
        Err(_) => Err(PersonError::PersonUpdateFailure),
    }
}

/// Every record of the store, the most recently joined first. Where
/// every field of every record of the store is filled in, so is every
/// field of every row.
pub fn get_all_persons(store: &MemoryStore) -> (rows: Option<Vec<Person>>)
    ensures
        rows matches Some(found) && views(found@) == by_joined_desc(store@),
        rows matches Some(found) ==> (all_populated(store@) ==> all_populated(views(found@))),
{
    proof {
        if all_populated(store@) {
            lemma_ordered_all_populated(store@);
        }
    }
    listed(Ok(store.select_all()))
}

/// Keeps a new record. It is stored, and handed back, unless its key was
/// issued before, to a record that is kept or to one that has been dropped
/// since.
pub fn add_person(store: &mut MemoryStore, new_person: Person) -> (stored: Option<Person>)
    requires
        old(store).wf(),
    ensures
        final(store).wf(),
        final(store)@ == with_created(old(store)@, old(store).issued(), new_person@),
        final(store).issued() == issued_with(old(store).issued(), new_person@),
        stored is Some <==> !old(store).issued().contains(new_person@.uuid),
        stored matches Some(person) ==> person@ == new_person@ && !has_key(
            old(store)@,
            new_person@.uuid,
        ),
{
    let answer = match store.create(new_person) {
        Ok(person) => Ok(Some(person)),
        Err(_) => Err(StoreFault),
    };
    created(answer)
}

/// Drops the record under a key and hands it back, or `None` where there
/// is none.
pub fn delete_person(store: &mut MemoryStore, person_uuid: String) -> (outcome: Result<
    Option<Person>,
    PersonError,
>)
    requires
        old(store).wf(),
    ensures
        final(store).wf(),
        final(store)@ == with_deleted(old(store)@, person_uuid@),
        final(store).issued() == old(store).issued(),
        outcome matches Ok(row) && (row is Some <==> has_key(old(store)@, person_uuid@)),
        outcome matches Ok(Some(person)) ==> person@ == old(store)@[key_index(
            old(store)@,
            person_uuid@,
        )],
{
    deleted(Ok(store.delete(&person_uuid)))
}

/// Replaces the three editable fields of the record under a key, in two
/// phases: fetch the record, then write the merged one back. Hands back
/// the record as stored; `PersonNotFound`, and nothing changed, where there
/// is no such record.
pub fn update_person(
    store: &mut MemoryStore,
    uuid: String,
    title: String,
    level: String,
    compensation: i32,
) -> (outcome: Result<Option<Person>, PersonError>)
    requires
        old(store).wf(),
    ensures
        final(store).wf(),
        final(store)@ == with_updated(old(store)@, uuid@, title@, level@, compensation),
        final(store).issued() == old(store).issued(),
        has_key(old(store)@, uuid@) ==> (outcome matches Ok(Some(person)) && person@ == old(
            store,
        )@[key_index(old(store)@, uuid@)].edited(title@, level@, compensation)),
        !has_key(old(store)@, uuid@) ==> outcome == Err::<Option<Person>, PersonError>(
            PersonError::PersonNotFound,
        ),
{
    let fetched = Ok(store.select(&uuid));
    match merged(fetched, title, level, compensation) {
        Ok(person) => {
            proof {
                lemma_key_index_found(store@, uuid@);
            }
            written(Ok(store.merge(person)))
        },
        Err(person_error) => Err(person_error),
    }
}

} // verus!
