use vstd::prelude::*;
use crate::text::{blank, is_blank};

verus! {

/// One member of the team, as the store keeps it.
#[derive(Debug)]
pub struct Person {
    /// The key of the record: given when it is created, never changed.
    pub uuid: String,
    pub name: String,
    pub title: String,
    pub level: String,
    pub compensation: i32,
    /// When the record was created: never changed, and what lists are
    /// ordered by.
    pub joined_date: String,
}

/// What a record says, as plain values.
pub struct PersonView {
    pub uuid: Seq<char>,
    pub name: Seq<char>,
    pub title: Seq<char>,
    pub level: Seq<char>,
    pub compensation: i32,
    pub joined_date: Seq<char>,
}

impl View for Person {
    type V = PersonView;

    open spec fn view(&self) -> PersonView {
        PersonView {
            uuid: self.uuid@,
            name: self.name@,
            title: self.title@,
            level: self.level@,
            compensation: self.compensation,
            joined_date: self.joined_date@,
        }
    }
}

impl PersonView {
    /// Whether every field of the record is filled in: the key and the
    /// joining date are not empty, and the name, the title and the level
    /// hold more than white space. (A compensation is always a number.)
    pub open spec fn populated(self) -> bool {
        &&& self.uuid.len() > 0
        &&& !is_blank(self.name)
        &&& !is_blank(self.title)
        &&& !is_blank(self.level)
        &&& self.joined_date.len() > 0
    }

    /// This record with its three editable fields replaced.
    pub open spec fn edited(self, title: Seq<char>, level: Seq<char>, compensation: i32) -> PersonView {
        PersonView { title, level, compensation, ..self }
    }
}

/// Whether every field of every record is filled in.
pub open spec fn all_populated(records: Seq<PersonView>) -> bool {
    forall|i: int| 0 <= i < records.len() ==> (#[trigger] records[i]).populated()
}

/// What each record of a sequence says.
pub open spec fn views(persons: Seq<Person>) -> Seq<PersonView> {
    persons.map_values(|p: Person| p@)
}

impl Person {
    /// A record of the given fields.
    pub fn new(
        uuid: String,
        name: String,
        title: String,
        level: String,
        compensation: i32,
        joined_date: String,
    ) -> (person: Person)
        ensures
            person@ == (PersonView {
                uuid: uuid@,
                name: name@,
                title: title@,
                level: level@,
                compensation,
                joined_date: joined_date@,
            }),
    {
        Person { uuid, name, title, level, compensation, joined_date }
    }
}

impl Clone for Person {
    fn clone(&self) -> (copy: Person)
        ensures
            copy == *self,
    {
        Person {
            uuid: self.uuid.clone(),
            name: self.name.clone(),
            title: self.title.clone(),
            level: self.level.clone(),
            compensation: self.compensation,
            joined_date: self.joined_date.clone(),
        }
    }
}

/// A field that a request must fill in.
#[derive(Debug, Clone, Copy, PartialEq, Eq, Structural)]
pub enum Field {
    Uuid,
    Name,
    Title,
    Level,
}

/// Why a request was turned down: the required fields that it left blank,
/// in the order in which the request declares them.
#[derive(Debug)]
pub struct ValidationErrors {
    pub fields: Vec<Field>,
}

/// `field` if `text` is blank, nothing otherwise.
pub open spec fn missing_if_blank(field: Field, text: Seq<char>) -> Seq<Field> {
    if is_blank(text) {
        seq![field]
    } else {
        Seq::empty()
    }
}

/// What is needed to add a member.
#[derive(Debug)]
pub struct AddPersonRequest {
    pub name: String,
    pub title: String,
    pub level: String,
    pub compensation: i32,
}

/// What is needed to change a member: the key and the three editable fields.
#[derive(Debug)]
pub struct EditPersonRequest {
    pub uuid: String,
    pub title: String,
    pub level: String,
    pub compensation: i32,
}

/// What is needed to remove a member.
#[derive(Debug)]
pub struct DeletePersonRequest {
    pub uuid: String,
}

impl AddPersonRequest {
    pub fn new(name: String, title: String, level: String, compensation: i32) -> (request: Self)
        ensures
            request.name == name,
            request.title == title,
            request.level == level,
            request.compensation == compensation,
    {
        AddPersonRequest { name, title, level, compensation }
    }

    /// The required fields that this request leaves blank.
    pub open spec fn missing(&self) -> Seq<Field> {
        missing_if_blank(Field::Name, self.name@) + missing_if_blank(Field::Title, self.title@)
            + missing_if_blank(Field::Level, self.level@)
    }

    /// Whether every required field holds more than white space.
    pub open spec fn is_valid(&self) -> bool {
        !is_blank(self.name@) && !is_blank(self.title@) && !is_blank(self.level@)
    }

    /// Accepts the request if every required field holds more than white
    /// space, and names the blank ones otherwise.
    pub fn validate(&self) -> (outcome: Result<(), ValidationErrors>)
        ensures
            outcome is Ok <==> self.is_valid(),
            outcome matches Err(errors) ==> errors.fields@ == self.missing(),
    {
        let mut fields: Vec<Field> = Vec::new();
        if blank(self.name.as_str()) {
            fields.push(Field::Name);
        }
        if blank(self.title.as_str()) {
            fields.push(Field::Title);
        }
        if blank(self.level.as_str()) {
            fields.push(Field::Level);
        }
        if fields.len() == 0 {
            Ok(())
        } else {
            Err(ValidationErrors { fields })
        }
    }
}

impl EditPersonRequest {
    pub fn new(uuid: String, title: String, level: String, compensation: i32) -> (request: Self)
        ensures
            request.uuid == uuid,
            request.title == title,
            request.level == level,
            request.compensation == compensation,
    {
        EditPersonRequest { uuid, title, level, compensation }
    }

    /// The required fields that this request leaves blank.
    pub open spec fn missing(&self) -> Seq<Field> {
        missing_if_blank(Field::Uuid, self.uuid@) + missing_if_blank(Field::Title, self.title@)
            + missing_if_blank(Field::Level, self.level@)
    }

    /// Whether every required field holds more than white space.
    pub open spec fn is_valid(&self) -> bool {
        !is_blank(self.uuid@) && !is_blank(self.title@) && !is_blank(self.level@)
    }

    /// Accepts the request if every required field holds more than white
    /// space, and names the blank ones otherwise.
    pub fn validate(&self) -> (outcome: Result<(), ValidationErrors>)
        ensures
            outcome is Ok <==> self.is_valid(),
            outcome matches Err(errors) ==> errors.fields@ == self.missing(),
    {
        let mut fields: Vec<Field> = Vec::new();
        if blank(self.uuid.as_str()) {
            fields.push(Field::Uuid);
        }
        if blank(self.title.as_str()) {
            fields.push(Field::Title);
        }
        if blank(self.level.as_str()) {
            fields.push(Field::Level);
        }
        if fields.len() == 0 {
            Ok(())
        } else {
            Err(ValidationErrors { fields })
        }
    }
}

impl DeletePersonRequest {
    pub fn new(uuid: String) -> (request: Self)
        ensures
            request.uuid == uuid,
    {
        DeletePersonRequest { uuid }
    }

    /// The required fields that this request leaves blank.
    pub open spec fn missing(&self) -> Seq<Field> {
        missing_if_blank(Field::Uuid, self.uuid@)
    }

    /// Whether the key holds more than white space.
    pub open spec fn is_valid(&self) -> bool {
        !is_blank(self.uuid@)
    }

    /// Accepts the request if it names a key at all: a key is asked to be
    /// not empty and nothing more, so that every other key is looked up.
    pub fn require_uuid(&self) -> (outcome: Result<(), ValidationErrors>)
        ensures
            outcome is Ok <==> self.uuid@.len() > 0,
            outcome matches Err(errors) ==> errors.fields@ == seq![Field::Uuid],
    {
        if self.uuid.as_str().is_empty() {
            let mut fields: Vec<Field> = Vec::new();
            fields.push(Field::Uuid);
            Err(ValidationErrors { fields })
        } else {
            Ok(())
        }
    }

    /// Accepts the request if every required field holds more than white
    /// space, and names the blank ones otherwise.
    pub fn validate(&self) -> (outcome: Result<(), ValidationErrors>)
        ensures
            outcome is Ok <==> self.is_valid(),
            outcome matches Err(errors) ==> errors.fields@ == self.missing(),
    {
        if blank(self.uuid.as_str()) {
            let mut fields: Vec<Field> = Vec::new();
            fields.push(Field::Uuid);
            Err(ValidationErrors { fields })
        } else {
            Ok(())
        }
    }
}

} // verus!
