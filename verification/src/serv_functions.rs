use vstd::prelude::*;
use crate::clock::now;
use crate::database::{
    add_person, by_joined_desc, delete_person, distinct_keys, get_all_persons, has_key, key_index,
    lemma_key_index, lemma_key_index_found, update_person, with_deleted, with_updated, MemoryStore,
};
use crate::errors::{PersonError, RequestError, RequestErrorView};
use crate::person::{
    all_populated, views, AddPersonRequest, DeletePersonRequest, EditPersonRequest, Field, Person,
    PersonView,
};
use crate::text::is_blank;

verus! {

/// Whether `c` is a digit of lower-case hexadecimal notation.
pub open spec fn is_lower_hex(c: char) -> bool {
    ('0' <= c <= '9') || ('a' <= c <= 'f')
}

/// Whether a text has the form of a generated key: 32 digits of lower-case
/// hexadecimal notation.
pub open spec fn is_key_text(s: Seq<char>) -> bool {
    s.len() == 32 && forall|i: int| 0 <= i < s.len() ==> is_lower_hex(#[trigger] s[i])
}

/// A new random key. Calls `uuid::Uuid::new_v4` and writes the value with
/// `Simple::encode_lower`, which gives the 32 hexadecimal digits of its 16
/// bytes in lower case, without hyphens. Which digits they are is left
/// open: they are random.
#[verifier::external_body]
fn new_key() -> (key: String)
    ensures
        is_key_text(key@),
{
    let mut buffer = uuid::Uuid::encode_buffer();
    let key = uuid::Uuid::new_v4().simple().encode_lower(&mut buffer);
    String::from(key)
}

/// What an outcome says, as plain values.
pub open spec fn outcome_view(outcome: Result<Person, RequestError>) -> Result<
    PersonView,
    RequestErrorView,
> {
    match outcome {
        Ok(person) => Ok(person@),
        Err(error) => Err(error@),
    }
}

/// What deleting the record under `uuid` reports on given records. Only
/// an empty key is turned down; every other key is looked up.
pub open spec fn delete_outcome(records: Seq<PersonView>, uuid: Seq<char>) -> Result<
    PersonView,
    RequestErrorView,
> {
    if uuid.len() == 0 {
        Err(RequestErrorView::MissingFields(seq![Field::Uuid]))
    } else if has_key(records, uuid) {
        Ok(records[key_index(records, uuid)])
    } else {
        Err(RequestErrorView::Store(PersonError::PersonNotFound))
    }
}

/// The records once the record under `uuid` was asked to be deleted.
pub open spec fn after_delete(records: Seq<PersonView>, uuid: Seq<char>) -> Seq<PersonView> {
    if uuid.len() == 0 {
        records
    } else {
        with_deleted(records, uuid)
    }
}

/// What editing the record under `uuid` reports on given records.
pub open spec fn edit_outcome(
    records: Seq<PersonView>,
    uuid: Seq<char>,
    title: Seq<char>,
    level: Seq<char>,
    compensation: i32,
) -> Result<PersonView, RequestErrorView> {
    if is_blank(uuid) || is_blank(title) || is_blank(level) {
        Err(
            RequestErrorView::MissingFields(
                crate::person::missing_if_blank(Field::Uuid, uuid)
                    + crate::person::missing_if_blank(Field::Title, title)
                    + crate::person::missing_if_blank(Field::Level, level),
            ),
        )
    } else if has_key(records, uuid) {
        Ok(records[key_index(records, uuid)].edited(title, level, compensation))
    } else {
        Err(RequestErrorView::Store(PersonError::PersonNotFound))
    }
}

/// The records once the record under `uuid` was asked to be edited.
pub open spec fn after_edit(
    records: Seq<PersonView>,
    uuid: Seq<char>,
    title: Seq<char>,
    level: Seq<char>,
    compensation: i32,
) -> Seq<PersonView> {
    if is_blank(uuid) || is_blank(title) || is_blank(level) {
        records
    } else {
        with_updated(records, uuid, title, level, compensation)
    }
}

/// What the gateway's answer to a query means at the boundary: the rows,
/// and none where the gateway has nothing to hand out.
pub fn retrieved(get_all_person_result: Option<Vec<Person>>) -> (persons: Vec<Person>)
    ensures
        persons@ == match get_all_person_result {
            Some(found_persons) => found_persons@,
            None => Seq::<Person>::empty(),
        },
{
    match get_all_person_result {
        Some(found_persons) => found_persons,
        None => Vec::new(),
    }
}

/// Every record, the most recently joined first. Where every field of
/// every record of the store is filled in, so is every field of every row.
pub fn retrieve_all_persons(store: &MemoryStore) -> (persons: Vec<Person>)
    ensures
        views(persons@) == by_joined_desc(store@),
        all_populated(store@) ==> all_populated(views(persons@)),
{
    retrieved(get_all_persons(store))
}

/// A record of the given fields with a new key and the present moment as
/// its joining date, which is not empty.
pub fn new_member(name: String, title: String, level: String, compensation: i32) -> (person: Person)
    ensures
        person@.name == name@,
        person@.title == title@,
        person@.level == level@,
        person@.compensation == compensation,
        is_key_text(person@.uuid),
        person@.joined_date.len() > 0,
{
    let uuid = new_key();
    let current_now = now();
    Person::new(uuid, name, title, level, compensation, current_now.stamp)
}

/// Whether one of the keys has the form of a generated key.
pub open spec fn holds_key_text(keys: Set<Seq<char>>) -> bool {
    exists|key: Seq<char>| #[trigger] keys.contains(key) && is_key_text(key)
}

/// Makes a record of the given fields, with a new key and the present
/// moment as its joining date, and has the gateway keep it. `None`, and
/// nothing changed, where the store turns it down, which it does only if
/// the new key was issued before: so the record is kept whenever the store
/// has issued no key of the generated form, as a new store has not. The key
/// of a record that is kept is one that the store never issued, neither to
/// a record that it holds nor to one that has been dropped.
pub fn add_new_person(
    store: &mut MemoryStore,
    name: String,
    title: String,
    level: String,
    compensation: i32,
) -> (stored: Option<Person>)
    requires
        old(store).wf(),
    ensures
        final(store).wf(),
        stored matches Some(person) ==> {
            &&& person@.name == name@
            &&& person@.title == title@
            &&& person@.level == level@
            &&& person@.compensation == compensation
            &&& is_key_text(person@.uuid)
            &&& person@.joined_date.len() > 0
            &&& !old(store).issued().contains(person@.uuid)
            &&& !has_key(old(store)@, person@.uuid)
            &&& final(store)@ == old(store)@.push(person@)
            &&& final(store).issued() == old(store).issued().insert(person@.uuid)
        },
        stored is None ==> {
            &&& final(store)@ == old(store)@
            &&& final(store).issued() == old(store).issued()
            &&& holds_key_text(old(store).issued())
        },
{
    let new_person = new_member(name, title, level, compensation);
    proof {
        let key = new_person@.uuid;
        if store.issued().contains(key) {
            assert(store.issued().insert(key) =~= store.issued());
        }
    }
    add_person(store, new_person)
}

/// Has the gateway drop the record under a key.
pub fn delete_team_person(store: &mut MemoryStore, uuid: String) -> (outcome: Result<
    Option<Person>,
    PersonError,
>)
    requires
        old(store).wf(),
    ensures
        final(store).wf(),
        final(store)@ == with_deleted(old(store)@, uuid@),
        final(store).issued() == old(store).issued(),
        outcome matches Ok(row) && (row is Some <==> has_key(old(store)@, uuid@)),
        outcome matches Ok(Some(person)) ==> person@ == old(store)@[key_index(old(store)@, uuid@)],
{
    delete_person(store, uuid)
}

/// Has the gateway replace the three editable fields of the record under
/// a key.
pub fn edit_team_person(
    store: &mut MemoryStore,
    uuid: String,
    title: String,
    level: String,
    compensation: i32,
) -> (outcome: Result<Option<Person>, PersonError>)
    requires
        old(store).wf(),
    ensures
        final(store).wf(),
        final(store)@ == with_updated(old(store)@, uuid@, title@, level@, compensation),
        final(store).issued() == old(store).issued(),
        has_key(old(store)@, uuid@) ==> (outcome matches Ok(Some(person)) && person@ == old(
            store,
        )@[key_index(old(store)@, uuid@)].edited(title@, level@, compensation)),
        !has_key(old(store)@, uuid@) ==> outcome == Err::<Option<Person>, PersonError>(
            PersonError::PersonNotFound,
        ),
{
    update_person(store, uuid, title, level, compensation)
}

/// What the gateway's answer to a create means at the boundary: the new
/// record, or `PersonCreationFailure`.
pub fn added(stored: Option<Person>) -> (outcome: Result<Person, RequestError>)
    ensures
        outcome_view(outcome) == match stored {
            Some(person) => Ok::<PersonView, RequestErrorView>(person@),
            None => Err::<PersonView, RequestErrorView>(
                RequestErrorView::Store(PersonError::PersonCreationFailure),
            ),
        },
{
    match stored {
        Some(created_person) => Ok(created_person),
        None => Err(RequestError::Store(PersonError::PersonCreationFailure)),
    }
}

/// What the gateway's answer to a delete means at the boundary: the
/// dropped record; `PersonNotFound` where there was none; the gateway's
/// failure otherwise.
pub fn removed(deleted_results: Result<Option<Person>, PersonError>) -> (outcome: Result<
    Person,
    RequestError,
>)
    ensures
        outcome_view(outcome) == match deleted_results {
            Ok(Some(person)) => Ok::<PersonView, RequestErrorView>(person@),
            Ok(None) => Err::<PersonView, RequestErrorView>(
                RequestErrorView::Store(PersonError::PersonNotFound),
            ),
            Err(person_error) => Err::<PersonView, RequestErrorView>(
                RequestErrorView::Store(person_error),
            ),
        },
{
    match deleted_results {
        Ok(Some(deleted_person)) => Ok(deleted_person),
        Ok(None) => Err(RequestError::Store(PersonError::PersonNotFound)),
        Err(person_error) => Err(RequestError::Store(person_error)),
    }
}

/// What the gateway's answer to an update means at the boundary: the
/// record as stored; `PersonUpdateFailure` where it was gone by the time of
/// the write; the gateway's failure otherwise.
pub fn edited(updated: Result<Option<Person>, PersonError>) -> (outcome: Result<
    Person,
    RequestError,
>)
    ensures
        outcome_view(outcome) == match updated {
            Ok(Some(person)) => Ok::<PersonView, RequestErrorView>(person@),
            Ok(None) => Err::<PersonView, RequestErrorView>(
                RequestErrorView::Store(PersonError::PersonUpdateFailure),
            ),
            Err(person_error) => Err::<PersonView, RequestErrorView>(
                RequestErrorView::Store(person_error),
            ),
        },
{
    match updated {
        Ok(Some(updated_person)) => Ok(updated_person),
        Ok(None) => Err(RequestError::Store(PersonError::PersonUpdateFailure)),
        Err(person_error) => Err(RequestError::Store(person_error)),
    }
}

/// Lists the team, the most recently joined first. Never fails: where the
/// gateway has nothing to hand out the list is empty. No row is a partial
/// record: where every field of every record of the store is filled in, so
/// is every field of every row.
pub fn get_persons_srv(store: &MemoryStore) -> (outcome: Result<Vec<Person>, RequestError>)
    ensures
        outcome matches Ok(persons) && views(persons@) == by_joined_desc(store@),
        outcome matches Ok(persons) ==> (all_populated(store@) ==> all_populated(
            views(persons@),
        )),
{
    let persons = retrieve_all_persons(store);
    Ok(persons)
}

/// Adds a member. A request with a blank field is turned down and the
/// store is not asked. Otherwise the new record gets a key that the store
/// never issued, neither to a record that it holds nor to one that has
/// been dropped, and the present moment as its joining date, and joins the
/// records as the newest. The store turns it down only if the new key was
/// issued before, so never while it has issued no key of the generated
/// form, as a new store has not: the outcome is then
/// `PersonCreationFailure` and nothing has changed.
pub fn add_person_srv(store: &mut MemoryStore, add_person_request: AddPersonRequest) -> (outcome:
    Result<Person, RequestError>)
    requires
        old(store).wf(),
    ensures
        final(store).wf(),
        !add_person_request.is_valid() ==> final(store)@ == old(store)@ && final(store).issued()
            == old(store).issued() && outcome_view(outcome) == Err::<PersonView, RequestErrorView>(
            RequestErrorView::MissingFields(add_person_request.missing()),
        ),
        add_person_request.is_valid() ==> match outcome {
            Ok(person) => {
                &&& person@.name == add_person_request.name@
                &&& person@.title == add_person_request.title@
                &&& person@.level == add_person_request.level@
                &&& person@.compensation == add_person_request.compensation
                &&& is_key_text(person@.uuid)
                &&& person@.joined_date.len() > 0
                &&& person@.populated()
                &&& !old(store).issued().contains(person@.uuid)
                &&& !has_key(old(store)@, person@.uuid)
                &&& final(store)@ == old(store)@.push(person@)
                &&& final(store).issued() == old(store).issued().insert(person@.uuid)
            },
            Err(error) => {
                &&& error@ == RequestErrorView::Store(PersonError::PersonCreationFailure)
                &&& final(store)@ == old(store)@
                &&& final(store).issued() == old(store).issued()
                &&& holds_key_text(old(store).issued())
            },
        },
        add_person_request.is_valid() && !holds_key_text(old(store).issued()) ==> outcome is Ok,
        all_populated(old(store)@) ==> all_populated(final(store)@),
{
    match add_person_request.validate() {
        Err(errors) => Err(RequestError::MissingFields(errors)),
        Ok(_) => {
            let ghost before = store@;
            let new_person = add_new_person(
                store,
                add_person_request.name,
                add_person_request.title,
                add_person_request.level,
                add_person_request.compensation,
            );
            proof {
                if new_person is Some && all_populated(before) {
                    lemma_push_keeps_populated(before, new_person->Some_0@);
                }
            }
            added(new_person)
        },
    }
}

/// Removes a member. A request with an empty key is turned down and the
/// store is not asked. Under any other key, one of white space too, the
/// record is dropped and handed back; `PersonNotFound`, and nothing
/// changed, where there is none.
pub fn delete_person_srv(store: &mut MemoryStore, delete_person_request: DeletePersonRequest) -> (outcome:
    Result<Person, RequestError>)
    requires
        old(store).wf(),
    ensures
        final(store).wf(),
        final(store)@ == after_delete(old(store)@, delete_person_request.uuid@),
        final(store).issued() == old(store).issued(),
        outcome_view(outcome) == delete_outcome(old(store)@, delete_person_request.uuid@),
        all_populated(old(store)@) ==> all_populated(final(store)@),
{
    proof {
        if all_populated(store@) {
            lemma_delete_keeps_populated(store@, delete_person_request.uuid@);
        }
    }
    match delete_person_request.require_uuid() {
        Err(errors) => Err(RequestError::MissingFields(errors)),
        Ok(_) => {
            let deleted_results = delete_team_person(store, delete_person_request.uuid);
            removed(deleted_results)
        },
    }
}

/// Changes a member. A request with a blank field is turned down and the
/// store is not asked. Otherwise the record under the key gets the title,
/// level and compensation of the request and is handed back as stored; its
/// key, name and joining date stay. `PersonNotFound`, and nothing changed,
/// where there is no such record.
pub fn edit_person_srv(store: &mut MemoryStore, edit_person_request: EditPersonRequest) -> (outcome:
    Result<Person, RequestError>)
    requires
        old(store).wf(),
    ensures
        final(store).wf(),
        final(store).issued() == old(store).issued(),
        final(store)@ == after_edit(
            old(store)@,
            edit_person_request.uuid@,
            edit_person_request.title@,
            edit_person_request.level@,
            edit_person_request.compensation,
        ),
        outcome_view(outcome) == edit_outcome(
            old(store)@,
            edit_person_request.uuid@,
            edit_person_request.title@,
            edit_person_request.level@,
            edit_person_request.compensation,
        ),
        all_populated(old(store)@) ==> all_populated(final(store)@),
{
    proof {
        if all_populated(store@) {
            lemma_edit_keeps_populated(
                store@,
                edit_person_request.uuid@,
                edit_person_request.title@,
                edit_person_request.level@,
                edit_person_request.compensation,
            );
        }
    }
    match edit_person_request.validate() {
        Err(errors) => Err(RequestError::MissingFields(errors)),
        Ok(_) => {
            let updated = edit_team_person(
                store,
                edit_person_request.uuid,
                edit_person_request.title,
                edit_person_request.level,
                edit_person_request.compensation,
            );
            edited(updated)
        },
    }
}

/// Deleting under a key that is not empty and that no record has reports
/// `PersonNotFound`, with the message of that kind, and the list is
/// afterwards what it was.
pub proof fn lemma_delete_absent(records: Seq<PersonView>, uuid: Seq<char>)
    requires
        uuid.len() > 0,
        !has_key(records, uuid),
    ensures
        delete_outcome(records, uuid) == Err::<PersonView, RequestErrorView>(
            RequestErrorView::Store(PersonError::PersonNotFound),
        ),
        delete_outcome(records, uuid)->Err_0.text() == "member not found"@,
        by_joined_desc(after_delete(records, uuid)) == by_joined_desc(records),
{
}

/// Deleting twice under one key: where a record has the key, the first
/// delete hands that record back, the second reports `PersonNotFound` and
/// changes nothing more.
pub proof fn lemma_delete_twice(records: Seq<PersonView>, uuid: Seq<char>)
    requires
        distinct_keys(records),
        uuid.len() > 0,
        has_key(records, uuid),
    ensures
        delete_outcome(records, uuid) == Ok::<PersonView, RequestErrorView>(
            records[key_index(records, uuid)],
        ),
        delete_outcome(after_delete(records, uuid), uuid) == Err::<PersonView, RequestErrorView>(
            RequestErrorView::Store(PersonError::PersonNotFound),
        ),
        after_delete(after_delete(records, uuid), uuid) == after_delete(records, uuid),
{
    let k = key_index(records, uuid);
    lemma_key_index_found(records, uuid);
    let rest = records.remove(k);
    assert forall|j: int| 0 <= j < rest.len() implies (#[trigger] rest[j]).uuid != uuid by {
        if j < k {
            assert(rest[j] == records[j]);
        } else {
            assert(rest[j] == records[j + 1]);
            assert(records[k].uuid != records[j + 1].uuid);
        }
    }
    lemma_key_index(rest, uuid, rest.len() as int);
}

/// An edit that goes through changes the title, level and compensation of
/// the one record under the key, and nothing else: that record keeps its
/// key, name and joining date, every other record stays, and so does the
/// order of the records.
pub proof fn lemma_edit_keeps_the_rest(
    records: Seq<PersonView>,
    uuid: Seq<char>,
    title: Seq<char>,
    level: Seq<char>,
    compensation: i32,
)
    requires
        edit_outcome(records, uuid, title, level, compensation) is Ok,
    ensures
        has_key(records, uuid),
        ({
            let k = key_index(records, uuid);
            let after = after_edit(records, uuid, title, level, compensation);
            let person = edit_outcome(records, uuid, title, level, compensation)->Ok_0;
            &&& after.len() == records.len()
            &&& after[k] == person
            &&& person.uuid == uuid
            &&& person.name == records[k].name
            &&& person.joined_date == records[k].joined_date
            &&& person.title == title
            &&& person.level == level
            &&& person.compensation == compensation
            &&& forall|j: int| 0 <= j < records.len() && j != k ==> after[j] == records[j]
        }),
{
    lemma_key_index_found(records, uuid);
}

/// A record that was added under a generated key, which no record had,
/// leaves the keys distinct; it can be deleted by that key, and the
/// records are then what they were before it was added.
pub proof fn lemma_add_then_delete(records: Seq<PersonView>, person: PersonView)
    requires
        is_key_text(person.uuid),
        !has_key(records, person.uuid),
    ensures
        distinct_keys(records) ==> distinct_keys(records.push(person)),
        delete_outcome(records.push(person), person.uuid) == Ok::<PersonView, RequestErrorView>(
            person,
        ),
        after_delete(records.push(person), person.uuid) == records,
{
    let more = records.push(person);
    lemma_key_index_found(records, person.uuid);
    assert forall|j: int| 0 <= j < records.len() implies (#[trigger] more[j]).uuid
        != person.uuid by {
        assert(more[j] == records[j]);
    }
    lemma_key_index(more, person.uuid, records.len() as int);
    assert(more.remove(records.len() as int) =~= records);
    if distinct_keys(records) {
        assert forall|i: int, j: int| 0 <= i < j < more.len() implies (#[trigger] more[i]).uuid
            != (#[trigger] more[j]).uuid by {
            if j < records.len() {
                assert(more[i] == records[i] && more[j] == records[j]);
            }
        }
    }
}

/// Two records that were added one after the other, each under a key
/// that no record had by then, have different keys, and the store holds
/// both, the later behind the earlier, with its keys still distinct.
pub proof fn lemma_add_twice(records: Seq<PersonView>, first: PersonView, second: PersonView)
    requires
        distinct_keys(records),
        !has_key(records, first.uuid),
        !has_key(records.push(first), second.uuid),
    ensures
        first.uuid != second.uuid,
        distinct_keys(records.push(first).push(second)),
        has_key(records.push(first).push(second), first.uuid),
        has_key(records.push(first).push(second), second.uuid),
{
    let one = records.push(first);
    let two = one.push(second);
    lemma_key_index_found(records, first.uuid);
    lemma_key_index_found(one, second.uuid);
    assert(one[records.len() as int] == first);
    assert forall|j: int| 0 <= j < records.len() implies (#[trigger] one[j]).uuid != first.uuid by {
        assert(one[j] == records[j]);
    }
    assert forall|i: int, j: int| 0 <= i < j < one.len() implies (#[trigger] one[i]).uuid
        != (#[trigger] one[j]).uuid by {
        if j < records.len() {
            assert(one[i] == records[i] && one[j] == records[j]);
        }
    }
    assert forall|i: int, j: int| 0 <= i < j < two.len() implies (#[trigger] two[i]).uuid
        != (#[trigger] two[j]).uuid by {
        if j < one.len() {
            assert(two[i] == one[i] && two[j] == one[j]);
        } else {
            assert(two[i] == one[i]);
        }
    }
    assert forall|j: int| 0 <= j < records.len() implies (#[trigger] two[j]).uuid != first.uuid by {
        assert(two[j] == records[j]);
    }
    assert(two[records.len() as int] == first);
    lemma_key_index(two, first.uuid, records.len() as int);
    assert forall|j: int| 0 <= j < one.len() implies (#[trigger] two[j]).uuid != second.uuid by {
        assert(two[j] == one[j]);
    }
    lemma_key_index(two, second.uuid, one.len() as int);
}

/// A record with every field filled in, put behind records that have
/// every field filled in, leaves them so.
pub proof fn lemma_push_keeps_populated(records: Seq<PersonView>, person: PersonView)
    requires
        all_populated(records),
        person.populated(),
    ensures
        all_populated(records.push(person)),
{
    let more = records.push(person);
    assert forall|i: int| 0 <= i < more.len() implies (#[trigger] more[i]).populated() by {
        if i < records.len() {
            assert(more[i] == records[i]);
        }
    }
}

/// A delete leaves no partial record: where every field of every record
/// was filled in, it still is afterwards, and so is every field of the
/// record that the delete hands back.
pub proof fn lemma_delete_keeps_populated(records: Seq<PersonView>, uuid: Seq<char>)
    requires
        all_populated(records),
    ensures
        all_populated(after_delete(records, uuid)),
        delete_outcome(records, uuid) matches Ok(person) ==> person.populated(),
{
    lemma_key_index_found(records, uuid);
    if uuid.len() > 0 && has_key(records, uuid) {
        let k = key_index(records, uuid);
        let rest = records.remove(k);
        assert forall|i: int| 0 <= i < rest.len() implies (#[trigger] rest[i]).populated() by {
            if i < k {
                assert(rest[i] == records[i]);
            } else {
                assert(rest[i] == records[i + 1]);
            }
        }
        assert(records[k].populated());
    }
}

/// An edit leaves no partial record: where every field of every record
/// was filled in, it still is afterwards, and so is every field of the
/// record that the edit hands back.
pub proof fn lemma_edit_keeps_populated(
    records: Seq<PersonView>,
    uuid: Seq<char>,
    title: Seq<char>,
    level: Seq<char>,
    compensation: i32,
)
    requires
        all_populated(records),
    ensures
        all_populated(after_edit(records, uuid, title, level, compensation)),
        edit_outcome(records, uuid, title, level, compensation) matches Ok(person)
            ==> person.populated(),
{
    lemma_key_index_found(records, uuid);
    if !(is_blank(uuid) || is_blank(title) || is_blank(level)) && has_key(records, uuid) {
        let k = key_index(records, uuid);
        let after = records.update(k, records[k].edited(title, level, compensation));
        assert(records[k].populated());
        assert forall|i: int| 0 <= i < after.len() implies (#[trigger] after[i]).populated() by {
            if i != k {
                assert(after[i] == records[i]);
            }
        }
    }
}

} // verus!
