//! Documents: structured values shaped like JSON, with the operations on their
//! top-level members that the store needs.

use vstd::prelude::*;

verus! {

/// `serde_json::Value`, as a value that is only handed on: nothing is
/// known of what it holds.
#[verifier::external_type_specification]
#[verifier::external_body]
pub struct ExJsonValue(serde_json::Value);

/// `serde_json::Number`, as a value that is only handed on: nothing is
/// known of what it holds.
#[verifier::external_type_specification]
#[verifier::external_body]
pub struct ExJsonNumber(serde_json::Number);

/// One named member of an object.
#[derive(Debug, PartialEq)]
pub struct Field {
    pub name: String,
    pub value: Document,
}

/// A structured value. Integers that fit 64 bits are held as such; any other
/// number is carried as `serde_json` holds it and is never looked into.
#[derive(Debug, PartialEq)]
pub enum Document {
    Null,
    Bool(bool),
    Unsigned(u64),
    Signed(i64),
    Real(serde_json::Number),
    String(String),
    Array(Vec<Document>),
    Object(Vec<Field>),
}

/// The members of an object, in order: name and value.
pub type Members = Seq<(Seq<char>, DocumentView)>;

/// The mathematical value of a `Document`. The two integer variants
/// collapse into one: `Unsigned(5)` and `Signed(5)` are the same value.
pub enum DocumentView {
    Null,
    Bool(bool),
    Integer(int),
    Real(serde_json::Number),
    String(Seq<char>),
    Array(Seq<DocumentView>),
    Object(Members),
}

/// The value that a document stands for.
pub open spec fn value_of(document: Document) -> DocumentView
    decreases document,
{
    match document {
        Document::Null => DocumentView::Null,
        Document::Bool(b) => DocumentView::Bool(b),
        Document::Unsigned(n) => DocumentView::Integer(n as int),
        Document::Signed(n) => DocumentView::Integer(n as int),
        Document::Real(n) => DocumentView::Real(n),
        Document::String(s) => DocumentView::String(s@),
        Document::Array(items) => DocumentView::Array(
            Seq::new(
                items@.len(),
                |i: int|
                    if 0 <= i < items@.len() {
                        value_of(items@[i])
                    } else {
                        DocumentView::Null
                    },
            ),
        ),
        Document::Object(fields) => DocumentView::Object(
            Seq::new(
                fields@.len(),
                |i: int|
                    if 0 <= i < fields@.len() {
                        (fields@[i].name@, value_of(fields@[i].value))
                    } else {
                        (Seq::empty(), DocumentView::Null)
                    },
            ),
        ),
    }
}

impl View for Document {
    type V = DocumentView;

    open spec fn view(&self) -> DocumentView {
        value_of(*self)
    }
}

/// The members that a vector of fields stands for.
pub open spec fn members_of(fields: Seq<Field>) -> Members {
    Seq::new(fields.len(), |i: int| (fields[i].name@, fields[i].value@))
}

pub proof fn lemma_object_view(fields: Vec<Field>)
    ensures
        Document::Object(fields)@ == DocumentView::Object(members_of(fields@)),
{
    let members = Document::Object(fields)@->Object_0;
    assert forall|i: int| 0 <= i < members.len() implies members[i] == members_of(fields@)[i] by {}
    assert(members =~= members_of(fields@));
}

/// The first position at or after `from` whose member is called `name`.
pub open spec fn find_from(members: Members, name: Seq<char>, from: int) -> Option<int>
    decreases members.len() - from,
{
    if from < 0 || from >= members.len() {
        None
    } else if members[from].0 == name {
        Some(from)
    } else {
        find_from(members, name, from + 1)
    }
}

/// Where the member called `name` stands: the first one, if several share the name.
pub open spec fn position(members: Members, name: Seq<char>) -> Option<int> {
    find_from(members, name, 0)
}

/// No two members share a name.
pub open spec fn distinct_names(members: Members) -> bool {
    forall|i: int, j: int|
        0 <= i < j < members.len() ==> (#[trigger] members[i]).0 != (#[trigger] members[j]).0
}

impl DocumentView {
    /// The members of an object; no members for any other value.
    pub open spec fn members(self) -> Members {
        match self {
            DocumentView::Object(m) => m,
            _ => Seq::empty(),
        }
    }

    /// The value of the top-level member called `name`, if the value is an
    /// object and has one.
    pub open spec fn lookup(self, name: Seq<char>) -> Option<DocumentView> {
        match position(self.members(), name) {
            Some(i) => Some(self.members()[i].1),
            None => None,
        }
    }
}

/// `members` with the member called `name` set to `value`: replaced where it
/// stands, or added at the end.
pub open spec fn with_member(members: Members, name: Seq<char>, value: DocumentView) -> Members {
    match position(members, name) {
        Some(i) => members.update(i, (name, value)),
        None => members.push((name, value)),
    }
}

/// `base` with the first `count` members of `patch` laid over it, one after another.
pub open spec fn overlay_prefix(base: Members, patch: Members, count: int) -> Members
    decreases count,
{
    if count <= 0 {
        base
    } else {
        with_member(
            overlay_prefix(base, patch, count - 1),
            patch[count - 1].0,
            patch[count - 1].1,
        )
    }
}

/// `base` with every member of `patch` laid over it: members of `base` that
/// `patch` does not name stay as they are.
pub open spec fn overlay(base: Members, patch: Members) -> Members {
    overlay_prefix(base, patch, patch.len() as int)
}

/// The members of `source` that the first `count` of `names` pick, each once.
pub open spec fn pick_prefix(source: Members, names: Seq<Seq<char>>, count: int) -> Members
    decreases count,
{
    if count <= 0 {
        Seq::empty()
    } else {
        let before = pick_prefix(source, names, count - 1);
        match position(source, names[count - 1]) {
            Some(i) => with_member(before, names[count - 1], source[i].1),
            None => before,
        }
    }
}

/// The members of `source` that `names` pick; a name that `source` lacks picks nothing.
pub open spec fn pick(source: Members, names: Seq<Seq<char>>) -> Members {
    pick_prefix(source, names, names.len() as int)
}

pub proof fn lemma_find_from_bounds(members: Members, name: Seq<char>, from: int)
    requires
        0 <= from,
    ensures
        match find_from(members, name, from) {
            Some(i) => from <= i < members.len() && members[i].0 == name && forall|j: int|
                from <= j < i ==> (#[trigger] members[j]).0 != name,
            None => forall|j: int| from <= j < members.len() ==> (#[trigger] members[j]).0 != name,
        },
    decreases members.len() - from,
{
    if from < members.len() && members[from].0 != name {
        lemma_find_from_bounds(members, name, from + 1);
    }
}

/// What `position` finds: the first member of that name, and no earlier one.
pub proof fn lemma_position(members: Members, name: Seq<char>)
    ensures
        match position(members, name) {
            Some(i) => 0 <= i < members.len() && members[i].0 == name && forall|j: int|
                0 <= j < i ==> (#[trigger] members[j]).0 != name,
            None => forall|j: int| 0 <= j < members.len() ==> (#[trigger] members[j]).0 != name,
        },
{
    lemma_find_from_bounds(members, name, 0);
}

/// A member that is the first of its name is the one `position` finds.
pub proof fn lemma_position_is(members: Members, name: Seq<char>, i: int)
    requires
        0 <= i < members.len(),
        members[i].0 == name,
        forall|j: int| 0 <= j < i ==> (#[trigger] members[j]).0 != name,
    ensures
        position(members, name) == Some(i),
{
    lemma_position(members, name);
}

/// Reading a member back after `with_member`: the one set has the new value,
/// every other name reads as before.
pub proof fn lemma_with_member_lookup(
    members: Members,
    name: Seq<char>,
    value: DocumentView,
    other: Seq<char>,
)
    ensures
        DocumentView::Object(with_member(members, name, value)).lookup(other) == if other == name {
            Some(value)
        } else {
            DocumentView::Object(members).lookup(other)
        },
        distinct_names(members) ==> distinct_names(with_member(members, name, value)),
{
    let after = with_member(members, name, value);
    lemma_position(members, name);
    lemma_position(members, other);
    lemma_position(after, other);
    match position(members, name) {
        Some(i) => {
            assert(forall|j: int| 0 <= j < after.len() ==> (#[trigger] after[j]).0 == members[j].0);
            if other == name {
                lemma_position_is(after, other, i);
            } else {
                match position(members, other) {
                    Some(k) => {
                        lemma_position_is(after, other, k);
                    },
                    None => {
                        assert forall|j: int| 0 <= j < after.len() implies (#[trigger] after[j]).0
                            != other by {
                            assert(members[j].0 != other);
                        }
                    },
                }
            }
        },
        None => {
            assert(forall|j: int| 0 <= j < members.len() ==> (#[trigger] after[j]) == members[j]);
            if other == name {
                lemma_position_is(after, other, members.len() as int);
            } else {
                match position(members, other) {
                    Some(k) => {
                        lemma_position_is(after, other, k);
                    },
                    None => {
                        assert forall|j: int| 0 <= j < after.len() implies (#[trigger] after[j]).0
                            != other by {
                            if j < members.len() {
                                assert(members[j].0 != other);
                            }
                        }
                    },
                }
            }
            assert(distinct_names(members) ==> distinct_names(after)) by {
                if distinct_names(members) {
                    assert forall|i: int, j: int| 0 <= i < j < after.len() implies (
                    #[trigger] after[i]).0 != (#[trigger] after[j]).0 by {
                        assert(members[i].0 != name);
                        if j < members.len() {
                            assert(members[i].0 != members[j].0);
                        }
                    }
                }
            }
        },
    }
    if position(members, name) is Some && distinct_names(members) {
        assert forall|i: int, j: int| 0 <= i < j < after.len() implies (#[trigger] after[i]).0 != (
        #[trigger] after[j]).0 by {
            assert(members[i].0 != members[j].0);
        }
    }
}

/// The names that a vector of strings stands for.
pub open spec fn names_of(names: Seq<String>) -> Seq<Seq<char>> {
    Seq::new(names.len(), |i: int| names[i]@)
}

/// The compact JSON text that `serde_json` prints for a value: a function
/// of the value alone.
pub uninterp spec fn json_text(value: DocumentView) -> Seq<char>;

/// Builds the `serde_json::Value` of a document with the constructors of
/// `serde_json`: its variants for null, booleans, strings and arrays,
/// `Value::from` for the two kinds of integer, and `Map`'s `FromIterator`
/// for the members of an object. Nothing is claimed of the result here;
/// it only feeds `canonical_text`.
#[verifier::external_body]
fn to_json(document: &Document) -> (json: serde_json::Value) {
    match document {
        Document::Null => serde_json::Value::Null,
        Document::Bool(b) => serde_json::Value::Bool(*b),
        Document::Unsigned(n) => serde_json::Value::from(*n),
        Document::Signed(n) => serde_json::Value::from(*n),
        Document::Real(n) => serde_json::Value::Number(n.clone()),
        Document::String(s) => serde_json::Value::String(s.clone()),
        Document::Array(items) => serde_json::Value::Array(items.iter().map(to_json).collect()),
        Document::Object(fields) => serde_json::Value::Object(
            fields.iter().map(|f| (f.name.clone(), to_json(&f.value))).collect(),
        ),
    }
}

/// Calls `to_string` of `serde_json::Value`, that is its `Display`, on
/// the converted document. The contract claims one thing: that the text
/// depends on the value of the document alone, and so is the one that
/// `json_text` names for it.
#[verifier::external_body]
pub(crate) fn canonical_text(document: &Document) -> (text: String)
    ensures
        text@ == json_text(document@),
{
    to_json(document).to_string()
}

/// `serde_json::Number::clone`: the copy is the same number.
pub assume_specification[ <serde_json::Number as Clone>::clone ](
    number: &serde_json::Number,
) -> (copy: serde_json::Number)
    ensures
        copy == *number,
;

/// Where the first field called `name` stands.
pub fn find_field(fields: &Vec<Field>, name: &String) -> (found: Option<usize>)
    ensures
        match found {
            Some(i) => position(members_of(fields@), name@) == Some(i as int) && i < fields@.len(),
            None => position(members_of(fields@), name@) is None,
        },
{
    let ghost members = members_of(fields@);
    let mut i: usize = 0;
    while i < fields.len()
        invariant
            i <= fields@.len(),
            members == members_of(fields@),
            find_from(members, name@, 0) == find_from(members, name@, i as int),
        decreases fields@.len() - i,
    {
        if fields[i].name == *name {
            return Some(i);
        }
        i = i + 1;
    }
    None
}

/// Sets the field called `name` to `value`: in place where one stands,
/// at the end otherwise.
pub fn set_field(fields: &mut Vec<Field>, name: String, value: Document)
    ensures
        members_of(final(fields)@) == with_member(members_of(old(fields)@), name@, value@),
{
    let found = find_field(fields, &name);
    match found {
        Some(i) => {
            fields.set(i, Field { name, value });
        },
        None => {
            fields.push(Field { name, value });
        },
    }
    assert(members_of(fields@) =~= with_member(members_of(old(fields)@), name@, value@));
}

impl Document {
    /// A copy that stands for the same value.
    pub fn deep_clone(&self) -> (copy: Document)
        ensures
            copy@ == self@,
        decreases self,
    {
        match self {
            Document::Null => Document::Null,
            Document::Bool(b) => Document::Bool(*b),
            Document::Unsigned(n) => Document::Unsigned(*n),
            Document::Signed(n) => Document::Signed(*n),
            Document::Real(n) => Document::Real(n.clone()),
            Document::String(s) => Document::String(s.clone()),
            Document::Array(items) => {
                let mut copies: Vec<Document> = Vec::new();
                let mut i: usize = 0;
                while i < items.len()
                    invariant
                        i <= items@.len(),
                        copies@.len() == i,
                        forall|k: int| 0 <= k < i ==> copies@[k]@ == items@[k]@,
                        *self == Document::Array(*items),
                    decreases items@.len() - i,
                {
                    proof {
                        assert(self->Array_0 == *items);
                        assert(decreases_to!(*self => self->Array_0));
                        assert(decreases_to!(*items => items[i as int]));
                    }
                    let copy = items[i].deep_clone();
                    copies.push(copy);
                    i = i + 1;
                }
                let copy = Document::Array(copies);
                assert(copy@->Array_0 =~= self@->Array_0);
                copy
            },
            Document::Object(fields) => {
                let mut copies: Vec<Field> = Vec::new();
                let mut i: usize = 0;
                while i < fields.len()
                    invariant
                        i <= fields@.len(),
                        copies@.len() == i,
                        forall|k: int|
                            0 <= k < i ==> copies@[k].name@ == fields@[k].name@
                                && copies@[k].value@ == fields@[k].value@,
                        *self == Document::Object(*fields),
                    decreases fields@.len() - i,
                {
                    proof {
                        assert(self->Object_0 == *fields);
                        assert(decreases_to!(*self => self->Object_0));
                        assert(decreases_to!(*fields => fields[i as int]));
                        assert(decreases_to!(fields[i as int] => fields[i as int].value));
                    }
                    let value = fields[i].value.deep_clone();
                    copies.push(Field { name: fields[i].name.clone(), value });
                    i = i + 1;
                }
                let copy = Document::Object(copies);
                assert(copy@->Object_0 =~= self@->Object_0);
                copy
            },
        }
    }

    /// Whether the value is an object.
    pub fn is_object(&self) -> (yes: bool)
        ensures
            yes == (self@ is Object),
    {
        match self {
            Document::Object(_) => true,
            _ => false,
        }
    }

    /// The top-level member called `name`, if the value is an object and
    /// has one.
    pub fn get(&self, name: &String) -> (found: Option<&Document>)
        ensures
            match found {
                Some(value) => self@.lookup(name@) == Some(value@),
                None => self@.lookup(name@) is None,
            },
    {
        match self {
            Document::Object(fields) => {
                proof {
                    lemma_object_view(*fields);
                }
                match find_field(fields, name) {
                    Some(i) => Some(&fields[i].value),
                    None => None,
                }
            },
            _ => None,
        }
    }
}

/// `base` with the top-level members of `patch` laid over it. A value
/// that is no object counts as an object without members.
pub fn merge(base: &Document, patch: &Document) -> (merged: Document)
    ensures
        merged@ == DocumentView::Object(overlay(base@.members(), patch@.members())),
{
    let mut fields: Vec<Field> = Vec::new();
    match base {
        Document::Object(own) => {
            proof {
                lemma_object_view(*own);
            }
            let mut i: usize = 0;
            while i < own.len()
                invariant
                    i <= own@.len(),
                    fields@.len() == i,
                    forall|k: int|
                        0 <= k < i ==> fields@[k].name@ == own@[k].name@ && fields@[k].value@
                            == own@[k].value@,
                decreases own@.len() - i,
            {
                fields.push(Field { name: own[i].name.clone(), value: own[i].value.deep_clone() });
                i = i + 1;
            }
            assert(members_of(fields@) =~= base@.members());
        },
        _ => {
            assert(members_of(fields@) =~= base@.members());
        },
    }
    match patch {
        Document::Object(over) => {
            proof {
                lemma_object_view(*over);
            }
            let mut i: usize = 0;
            while i < over.len()
                invariant
                    i <= over@.len(),
                    members_of(fields@) == overlay_prefix(
                        base@.members(),
                        members_of(over@),
                        i as int,
                    ),
                decreases over@.len() - i,
            {
                set_field(&mut fields, over[i].name.clone(), over[i].value.deep_clone());
                i = i + 1;
            }
        },
        _ => {},
    }
    proof {
        lemma_object_view(fields);
    }
    Document::Object(fields)
}

/// An object with the top-level members of `document` that `names` pick.
pub fn project(document: &Document, names: &Vec<String>) -> (picked: Document)
    ensures
        picked@ == DocumentView::Object(pick(document@.members(), names_of(names@))),
{
    let mut fields: Vec<Field> = Vec::new();
    let mut i: usize = 0;
    assert(members_of(fields@) =~= Seq::empty());
    while i < names.len()
        invariant
            i <= names@.len(),
            members_of(fields@) == pick_prefix(document@.members(), names_of(names@), i as int),
        decreases names@.len() - i,
    {
        match document {
            Document::Object(own) => {
                proof {
                    lemma_object_view(*own);
                }
                match find_field(own, &names[i]) {
                    Some(k) => {
                        set_field(&mut fields, names[i].clone(), own[k].value.deep_clone());
                    },
                    None => {},
                }
            },
            _ => {},
        }
        i = i + 1;
    }
    proof {
        lemma_object_view(fields);
    }
    Document::Object(fields)
}

pub proof fn lemma_overlay_prefix_lookup(base: Members, patch: Members, count: int, name: Seq<char>)
    requires
        distinct_names(patch),
        0 <= count <= patch.len(),
    ensures
        DocumentView::Object(overlay_prefix(base, patch, count)).lookup(name) == match position(
            patch.take(count),
            name,
        ) {
            Some(i) => Some(patch[i].1),
            None => DocumentView::Object(base).lookup(name),
        },
    decreases count,
{
    let front = patch.take(count);
    lemma_position(front, name);
    if count > 0 {
        let before = patch.take(count - 1);
        let last = patch[count - 1];
        lemma_overlay_prefix_lookup(base, patch, count - 1, name);
        lemma_with_member_lookup(overlay_prefix(base, patch, count - 1), last.0, last.1, name);
        lemma_position(before, name);
        if name == last.0 {
            assert forall|j: int| 0 <= j < count - 1 implies (#[trigger] front[j]).0 != name by {
                assert(patch[j].0 != patch[count - 1].0);
            }
            assert(front[count - 1] == last);
            lemma_position_is(front, name, count - 1);
        } else {
            match position(before, name) {
                Some(i) => {
                    assert(front[i] == before[i]);
                    assert forall|j: int| 0 <= j < i implies (#[trigger] front[j]).0 != name by {
                        assert(before[j].0 != name);
                    }
                    lemma_position_is(front, name, i);
                },
                None => {
                    assert forall|j: int| 0 <= j < front.len() implies (#[trigger] front[j]).0
                        != name by {
                        if j < count - 1 {
                            assert(before[j].0 != name);
                        }
                    }
                },
            }
        }
    }
}

/// Merging: in the merged object a name that the patch has reads as in the
/// patch, and every other name reads as in the base.
pub proof fn lemma_overlay_lookup(base: Members, patch: Members, name: Seq<char>)
    requires
        distinct_names(patch),
    ensures
        DocumentView::Object(overlay(base, patch)).lookup(name) == match DocumentView::Object(
            patch,
        ).lookup(name) {
            Some(value) => Some(value),
            None => DocumentView::Object(base).lookup(name),
        },
{
    lemma_overlay_prefix_lookup(base, patch, patch.len() as int, name);
    assert(patch.take(patch.len() as int) =~= patch);
}

} // verus!
