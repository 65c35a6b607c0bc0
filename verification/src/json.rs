//! The members of a JSON object, as far as replies of the services are read.

use crate::text;
use crate::text::same_text;
use vstd::prelude::*;

verus! {

/// A JSON value, as far as it is read: of arrays and objects, and of numbers that
/// are no unsigned 64-bit integers, only that they are such.
#[derive(Debug, Clone)]
pub enum JsonValue {
    Null,
    Flag(bool),
    Count(u64),
    Number,
    Text(String),
    List,
    Object,
}

/// The contents of a `JsonValue`.
pub enum JsonView {
    Null,
    Flag(bool),
    Count(u64),
    Number,
    Text(Seq<char>),
    List,
    Object,
}

impl View for JsonValue {
    type V = JsonView;

    open spec fn view(&self) -> JsonView {
        match *self {
            JsonValue::Null => JsonView::Null,
            JsonValue::Flag(b) => JsonView::Flag(b),
            JsonValue::Count(n) => JsonView::Count(n),
            JsonValue::Number => JsonView::Number,
            JsonValue::Text(t) => JsonView::Text(t@),
            JsonValue::List => JsonView::List,
            JsonValue::Object => JsonView::Object,
        }
    }
}

/// The members that a list sets, the last one of a name prevailing.
pub open spec fn members_of(list: Seq<(String, JsonValue)>) -> Map<Seq<char>, JsonView>
    decreases list.len(),
{
    if list.len() == 0 {
        Map::empty()
    } else {
        members_of(list.drop_last()).insert(list.last().0@, list.last().1@)
    }
}

/// What a JSON text spells: an object with its members, or another value.
#[derive(Debug, Clone)]
pub enum JsonDocument {
    Members(Vec<(String, JsonValue)>),
    Value(JsonValue),
}

/// The contents of a `JsonDocument`: of an object, what its members are set to.
pub enum DocumentView {
    Members(Map<Seq<char>, JsonView>),
    Value(JsonView),
}

impl View for JsonDocument {
    type V = DocumentView;

    open spec fn view(&self) -> DocumentView {
        match *self {
            JsonDocument::Members(list) => DocumentView::Members(members_of(list@)),
            JsonDocument::Value(v) => DocumentView::Value(v@),
        }
    }
}

/// What `serde_json` reads in `input`; nothing where `input` is no JSON text.
pub uninterp spec fn json_document(input: Seq<char>) -> Option<DocumentView>;

/// The members of the JSON value that `input` spells: those of an object, none of
/// any other value; nothing where `input` is no JSON text.
pub open spec fn json_members(input: Seq<char>) -> Option<Map<Seq<char>, JsonView>> {
    match json_document(input) {
        Some(DocumentView::Members(members)) => Some(members),
        Some(DocumentView::Value(_)) => Some(Map::empty()),
        None => None,
    }
}

/// Calls `serde_json::from_str::<serde_json::Value>` and copies what it reads, an
/// object as the list of its members. What is read depends on the text alone and
/// has the name `json_document`; the order of the list is left open.
#[verifier::external_body]
fn read_document(input: &str) -> (r: Option<JsonDocument>)
    ensures
        match r {
            Some(document) => json_document(input@) == Some(document@),
            None => json_document(input@) is None,
        },
{
    let copy = |v: serde_json::Value| match v {
        serde_json::Value::Null => JsonValue::Null,
        serde_json::Value::Bool(b) => JsonValue::Flag(b),
        serde_json::Value::Number(n) => n.as_u64().map_or(JsonValue::Number, JsonValue::Count),
        serde_json::Value::String(s) => JsonValue::Text(s),
        serde_json::Value::Array(_) => JsonValue::List,
        serde_json::Value::Object(_) => JsonValue::Object,
    };
    serde_json::from_str::<serde_json::Value>(input).ok().map(|v| match v {
        serde_json::Value::Object(m) => {
            JsonDocument::Members(m.into_iter().map(|(k, v)| (k, copy(v))).collect())
        },
        other => JsonDocument::Value(copy(other)),
    })
}

/// The members of a JSON object.
#[derive(Debug, Clone)]
pub struct JsonObject {
    list: Vec<(String, JsonValue)>,
}

impl View for JsonObject {
    type V = Map<Seq<char>, JsonView>;

    closed spec fn view(&self) -> Map<Seq<char>, JsonView> {
        members_of(self.list@)
    }
}

/// The text that the member `key` holds, if it is there and holds one.
pub open spec fn text_member(members: Map<Seq<char>, JsonView>, key: Seq<char>) -> Option<Seq<char>> {
    if members.contains_key(key) {
        match members[key] {
            JsonView::Text(t) => Some(t),
            _ => None,
        }
    } else {
        None
    }
}

/// The unsigned integer that the member `key` holds, if it is there and holds one.
pub open spec fn count_member(members: Map<Seq<char>, JsonView>, key: Seq<char>) -> Option<u64> {
    if members.contains_key(key) {
        match members[key] {
            JsonView::Count(n) => Some(n),
            _ => None,
        }
    } else {
        None
    }
}

/// The truth value that the member `key` holds, if it is there and holds one.
pub open spec fn flag_member(members: Map<Seq<char>, JsonView>, key: Seq<char>) -> Option<bool> {
    if members.contains_key(key) {
        match members[key] {
            JsonView::Flag(b) => Some(b),
            _ => None,
        }
    } else {
        None
    }
}

impl JsonObject {
    /// An object without members.
    pub fn new() -> (r: JsonObject)
        ensures
            r@ == Map::<Seq<char>, JsonView>::empty(),
    {
        JsonObject { list: Vec::new() }
    }

    /// Sets the member `key`, in place of what it was set to before.
    pub fn insert(&mut self, key: String, value: JsonValue)
        ensures
            final(self)@ == old(self)@.insert(key@, value@),
    {
        let ghost before = self.list@;
        self.list.push((key, value));
        assert(self.list@.drop_last() =~= before);
    }

    /// The members of what a JSON text spells; a value that is no object has none.
    pub fn of(document: JsonDocument) -> (r: JsonObject)
        ensures
            r@ == (match document@ {
                DocumentView::Members(members) => members,
                DocumentView::Value(_) => Map::empty(),
            }),
    {
        match document {
            JsonDocument::Members(list) => JsonObject { list },
            JsonDocument::Value(_) => JsonObject::new(),
        }
    }

    /// Reads the members of the object that `input` spells; a JSON value of another
    /// kind has none.
    pub fn parse(input: &str) -> (r: Option<JsonObject>)
        ensures
            match r {
                Some(object) => json_members(input@) == Some(object@),
                None => json_members(input@) is None,
            },
    {
        match read_document(input) {
            Some(document) => Some(JsonObject::of(document)),
            None => None,
        }
    }

    fn get(&self, key: &str) -> (r: Option<&JsonValue>)
        ensures
            match r {
                Some(value) => self@.contains_key(key@) && self@[key@] == value@,
                None => !self@.contains_key(key@),
            },
    {
        let mut i: usize = self.list.len();
        assert(self.list@.take(i as int) =~= self.list@);
        while i > 0
            invariant
                i <= self.list@.len(),
                self@.contains_key(key@) == members_of(self.list@.take(i as int)).contains_key(key@),
                self@.contains_key(key@) ==> self@[key@] == members_of(self.list@.take(i as int))[key@],
            decreases i,
        {
            assert(self.list@.take(i as int).drop_last() =~= self.list@.take(i - 1));
            if same_text(self.list[i - 1].0.as_str(), key) {
                return Some(&self.list[i - 1].1);
            }
            i = i - 1;
        }
        None
    }

    /// The text that the member `key` holds, if it is there and holds one.
    pub fn text(&self, key: &str) -> (r: Option<String>)
        ensures
            text::opt_view(r) == text_member(self@, key@),
    {
        match self.get(key) {
            Some(JsonValue::Text(t)) => Some(t.clone()),
            _ => None,
        }
    }

    /// The unsigned integer that the member `key` holds, if it is there and holds one.
    pub fn count(&self, key: &str) -> (r: Option<u64>)
        ensures
            r == count_member(self@, key@),
    {
        match self.get(key) {
            Some(JsonValue::Count(n)) => Some(*n),
            _ => None,
        }
    }

    /// The truth value that the member `key` holds, if it is there and holds one.
    pub fn flag(&self, key: &str) -> (r: Option<bool>)
        ensures
            r == flag_member(self@, key@),
    {
        match self.get(key) {
            Some(JsonValue::Flag(b)) => Some(*b),
            _ => None,
        }
    }
}

// ── laws ────────────────────────────────────────────────────────────────────
/// A member is read as a text, a number or a truth value exactly where it is there
/// and is one, and then as it is.
pub proof fn law_member_is_read_as_it_is(members: Map<Seq<char>, JsonView>, key: Seq<char>)
    ensures
        !members.contains_key(key) ==> text_member(members, key) is None && count_member(
            members,
            key,
        ) is None && flag_member(members, key) is None,
        members.contains_key(key) ==> {
            &&& text_member(members, key) is Some <==> members[key] is Text
            &&& members[key] matches JsonView::Text(t) ==> text_member(members, key) == Some(t)
            &&& count_member(members, key) is Some <==> members[key] is Count
            &&& members[key] matches JsonView::Count(n) ==> count_member(members, key) == Some(n)
            &&& flag_member(members, key) is Some <==> members[key] is Flag
            &&& members[key] matches JsonView::Flag(b) ==> flag_member(members, key) == Some(b)
        },
{
}

/// The contents of a value are of its kind, with what it holds.
pub proof fn law_value_contents(value: JsonValue)
    ensures
        value is Null <==> value@ is Null,
        value is Number <==> value@ is Number,
        value is List <==> value@ is List,
        value is Object <==> value@ is Object,
        value is Flag <==> value@ is Flag,
        value is Count <==> value@ is Count,
        value is Text <==> value@ is Text,
        value matches JsonValue::Flag(b) ==> value@ == JsonView::Flag(b),
        value matches JsonValue::Count(n) ==> value@ == JsonView::Count(n),
        value matches JsonValue::Text(t) ==> value@ == JsonView::Text(t@),
{
}

/// A list sets the members that it names and no others.
pub proof fn law_members_are_those_named(list: Seq<(String, JsonValue)>, key: Seq<char>)
    ensures
        members_of(list).contains_key(key) <==> exists|i: int|
            0 <= i < list.len() && (#[trigger] list[i]).0@ == key,
    decreases list.len(),
{
    if list.len() > 0 {
        let front = list.drop_last();
        let end = list.len() - 1;
        law_members_are_those_named(front, key);
        assert(list.last() == list[end]);
        if members_of(list).contains_key(key) && list[end].0@ != key {
            let i = choose|i: int| 0 <= i < front.len() && (#[trigger] front[i]).0@ == key;
            assert(list[i].0@ == key);
        }
        if exists|i: int| 0 <= i < list.len() && (#[trigger] list[i]).0@ == key {
            let i = choose|i: int| 0 <= i < list.len() && (#[trigger] list[i]).0@ == key;
            if i < end {
                assert(front[i].0@ == key);
            }
        }
    }
}

/// A member is set to what the last entry of its name holds.
pub proof fn law_last_member_prevails(list: Seq<(String, JsonValue)>, i: int)
    requires
        0 <= i < list.len(),
        forall|j: int| i < j < list.len() ==> (#[trigger] list[j]).0@ != list[i].0@,
    ensures
        members_of(list).contains_key(list[i].0@),
        members_of(list)[list[i].0@] == list[i].1@,
    decreases list.len(),
{
    let end = list.len() - 1;
    if i < end {
        assert(list.last() == list[end]);
        law_last_member_prevails(list.drop_last(), i);
    }
}

/// What a text spells has the members that its object has, and none where it spells
/// another value.
pub proof fn law_members_are_those_of_the_object(input: Seq<char>)
    ensures
        json_members(input) is None <==> json_document(input) is None,
        json_document(input) matches Some(DocumentView::Members(m)) ==> json_members(input) == Some(
            m,
        ),
        json_document(input) matches Some(DocumentView::Value(_)) ==> json_members(input) == Some(
            Map::<Seq<char>, JsonView>::empty(),
        ),
{
}

} // verus!
