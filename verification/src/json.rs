//! JSON values as the library holds them, and how they are read from text.

use vstd::prelude::*;
use vstd::string::*;
use crate::text::text_is;

verus! {

/// A number of a document.
#[derive(Debug)]
pub struct JsonNumber {
    /// Its value, where it is a whole number that is not negative and fits.
    pub natural: Option<u64>,
    /// Its shortest decimal form.
    pub text: String,
}

/// A JSON value. The members of an object stand in the order in which they are walked.
#[derive(Debug)]
pub enum Json {
    Null,
    Bool(bool),
    Number(JsonNumber),
    Text(String),
    Array(Vec<Json>),
    Object(Vec<(String, Json)>),
}

/// What a [`Json`] holds.
pub enum JsonTree {
    Null,
    Bool(bool),
    Number(Option<u64>, Seq<char>),
    Text(Seq<char>),
    Array(Seq<JsonTree>),
    Object(Seq<(Seq<char>, JsonTree)>),
}

/// The first member of that name.
pub open spec fn member(members: Seq<(Seq<char>, JsonTree)>, key: Seq<char>) -> Option<JsonTree>
    decreases members.len(),
{
    if members.len() == 0 {
        None
    } else if members[0].0 == key {
        Some(members[0].1)
    } else {
        member(members.skip(1), key)
    }
}

impl JsonTree {
    /// The member of an object; nothing has one that is not an object.
    pub open spec fn get(self, key: Seq<char>) -> Option<JsonTree> {
        match self {
            JsonTree::Object(members) => member(members, key),
            _ => None,
        }
    }

    /// The member of an object, and null where there is none.
    pub open spec fn at(self, key: Seq<char>) -> JsonTree {
        match self.get(key) {
            Some(v) => v,
            None => JsonTree::Null,
        }
    }

    /// The item of an array.
    pub open spec fn item(self, i: int) -> Option<JsonTree> {
        match self {
            JsonTree::Array(items) => if 0 <= i < items.len() {
                Some(items[i])
            } else {
                None
            },
            _ => None,
        }
    }

    pub open spec fn as_text(self) -> Option<Seq<char>> {
        match self {
            JsonTree::Text(s) => Some(s),
            _ => None,
        }
    }

    pub open spec fn as_natural(self) -> Option<u64> {
        match self {
            JsonTree::Number(n, _) => n,
            _ => None,
        }
    }

    /// The decimal form of a number.
    pub open spec fn as_decimal(self) -> Option<Seq<char>> {
        match self {
            JsonTree::Number(_, t) => Some(t),
            _ => None,
        }
    }

    pub open spec fn as_items(self) -> Option<Seq<JsonTree>> {
        match self {
            JsonTree::Array(items) => Some(items),
            _ => None,
        }
    }
}

impl Json {
    /// What the value holds.
    pub open spec fn tree(self) -> JsonTree
        decreases self,
    {
        match self {
            Json::Null => JsonTree::Null,
            Json::Bool(b) => JsonTree::Bool(b),
            Json::Number(n) => JsonTree::Number(n.natural, n.text@),
            Json::Text(s) => JsonTree::Text(s@),
            Json::Array(items) => JsonTree::Array(
                Seq::new(
                    items@.len(),
                    |i: int|
                        if 0 <= i < items@.len() {
                            items@[i].tree()
                        } else {
                            JsonTree::Null
                        },
                ),
            ),
            Json::Object(members) => JsonTree::Object(
                Seq::new(
                    members@.len(),
                    |i: int|
                        if 0 <= i < members@.len() {
                            (members@[i].0@, members@[i].1.tree())
                        } else {
                            (Seq::empty(), JsonTree::Null)
                        },
                ),
            ),
        }
    }

    /// The member of an object.
    pub fn get(&self, key: &str) -> (r: Option<&Json>)
        ensures
            r is Some == self.tree().get(key@) is Some,
            r matches Some(v) ==> self.tree().get(key@) == Some(v.tree()),
    {
        match self {
            Json::Object(members) => {
                let n: usize = members.len();
                let ghost all = self.tree()->Object_0;
                assert(all.skip(0) =~= all);
                for i in 0..n
                    invariant
                        n == members@.len(),
                        n == all.len(),
                        self.tree() == JsonTree::Object(all),
                        forall|j: int| 0 <= j < n ==> #[trigger] all[j] == (members@[j].0@, members@[j].1.tree()),
                        member(all, key@) == member(all.skip(i as int), key@),
                {
                    assert(all.skip(i as int)[0] == all[i as int]);
                    assert(all.skip(i as int).skip(1) =~= all.skip(i + 1));
                    if text_is(members[i].0.as_str(), key) {
                        return Some(&members[i].1);
                    }
                }
                None
            },
            _ => None,
        }
    }

    /// The item of an array.
    pub fn item(&self, i: usize) -> (r: Option<&Json>)
        ensures
            r is Some == self.tree().item(i as int) is Some,
            r matches Some(v) ==> self.tree().item(i as int) == Some(v.tree()),
    {
        match self {
            Json::Array(items) => {
                if i < items.len() {
                    Some(&items[i])
                } else {
                    None
                }
            },
            _ => None,
        }
    }

    pub fn as_text(&self) -> (r: Option<&str>)
        ensures
            r is Some == self.tree().as_text() is Some,
            r matches Some(s) ==> self.tree().as_text() == Some(s@),
    {
        match self {
            Json::Text(s) => Some(s.as_str()),
            _ => None,
        }
    }

    pub fn as_natural(&self) -> (r: Option<u64>)
        ensures
            r == self.tree().as_natural(),
    {
        match self {
            Json::Number(n) => n.natural,
            _ => None,
        }
    }

    /// The decimal form of a number.
    pub fn as_decimal(&self) -> (r: Option<&str>)
        ensures
            r is Some == self.tree().as_decimal() is Some,
            r matches Some(s) ==> self.tree().as_decimal() == Some(s@),
    {
        match self {
            Json::Number(n) => Some(n.text.as_str()),
            _ => None,
        }
    }

    /// The items of an array.
    pub fn as_items(&self) -> (r: Option<&Vec<Json>>)
        ensures
            r is Some == self.tree().as_items() is Some,
            r matches Some(v) ==> self.tree().as_items() == Some(trees(v@)),
    {
        match self {
            Json::Array(items) => {
                assert(self.tree()->Array_0 =~= trees(items@));
                Some(items)
            },
            _ => None,
        }
    }

    /// The text that a member is.
    pub fn text_at(&self, key: &str) -> (r: Option<&str>)
        ensures
            r is Some == self.tree().at(key@).as_text() is Some,
            r matches Some(s) ==> self.tree().at(key@).as_text() == Some(s@),
    {
        match self.get(key) {
            Some(v) => v.as_text(),
            None => None,
        }
    }

    /// The text that a member is, and the empty one where it is none.
    pub fn text_or_empty_at(&self, key: &str) -> (r: &str)
        ensures
            r@ == text_or_empty(self.tree().at(key@)),
    {
        proof {
            reveal_strlit("");
            assert(""@ =~= Seq::<char>::empty());
        }
        match self.text_at(key) {
            Some(t) => t,
            None => "",
        }
    }

    /// The whole number that a member is.
    pub fn natural_at(&self, key: &str) -> (r: Option<u64>)
        ensures
            r == self.tree().at(key@).as_natural(),
    {
        match self.get(key) {
            Some(v) => v.as_natural(),
            None => None,
        }
    }

    /// The decimal form of the number that a member is.
    pub fn decimal_at(&self, key: &str) -> (r: Option<&str>)
        ensures
            r is Some == self.tree().at(key@).as_decimal() is Some,
            r matches Some(s) ==> self.tree().at(key@).as_decimal() == Some(s@),
    {
        match self.get(key) {
            Some(v) => v.as_decimal(),
            None => None,
        }
    }

    /// The items of the array that a member is.
    pub fn items_at(&self, key: &str) -> (r: Option<&Vec<Json>>)
        ensures
            r is Some == self.tree().at(key@).as_items() is Some,
            r matches Some(v) ==> self.tree().at(key@).as_items() == Some(trees(v@)),
    {
        match self.get(key) {
            Some(v) => v.as_items(),
            None => None,
        }
    }

    pub fn is_null(&self) -> (r: bool)
        ensures
            r == (self.tree() == JsonTree::Null),
    {
        match self {
            Json::Null => true,
            _ => false,
        }
    }

    /// A copy of the value.
    pub fn copy(&self) -> (r: Json)
        ensures
            r.tree() == self.tree(),
        decreases self,
    {
        match self {
            Json::Null => Json::Null,
            Json::Bool(b) => Json::Bool(*b),
            Json::Number(n) => Json::Number(
                JsonNumber { natural: n.natural, text: n.text.clone() },
            ),
            Json::Text(s) => Json::Text(s.clone()),
            Json::Array(items) => {
                let n: usize = items.len();
                let mut out: Vec<Json> = Vec::new();
                for i in 0..n
                    invariant
                        n == items@.len(),
                        *self == Json::Array(*items),
                        out@.len() == i,
                        forall|j: int| 0 <= j < i ==> (#[trigger] out@[j]).tree() == items@[j].tree(),
                {
                    assert(decreases_to!(self->Array_0@ => self->Array_0@[i as int]));
                    assert(decreases_to!(*self => self->Array_0@[i as int]));
                    out.push(items[i].copy());
                }
                let r = Json::Array(out);
                assert(r.tree()->Array_0 =~= self.tree()->Array_0);
                r
            },
            Json::Object(members) => {
                let n: usize = members.len();
                let mut out: Vec<(String, Json)> = Vec::new();
                for i in 0..n
                    invariant
                        n == members@.len(),
                        *self == Json::Object(*members),
                        out@.len() == i,
                        forall|j: int| 0 <= j < i ==> (#[trigger] out@[j]).0@ == members@[j].0@ && out@[j].1.tree()
                            == members@[j].1.tree(),
                {
                    assert(decreases_to!(self->Object_0@ => self->Object_0@[i as int]));
                    assert(decreases_to!(self->Object_0@[i as int] => self->Object_0@[i as int].1));
                    assert(decreases_to!(*self => self->Object_0@[i as int].1));
                    out.push((members[i].0.clone(), members[i].1.copy()));
                }
                let r = Json::Object(out);
                assert(r.tree()->Object_0 =~= self.tree()->Object_0);
                r
            },
        }
    }
}

impl Json {
    /// The value that is a text.
    pub fn text(s: &str) -> (r: Json)
        ensures
            r.tree() == JsonTree::Text(s@),
    {
        Json::Text(String::from_str(s))
    }

    /// The object without members.
    pub fn object() -> (r: Json)
        ensures
            r.tree() == JsonTree::Object(Seq::empty()),
    {
        let r = Json::Object(Vec::new());
        assert(r.tree()->Object_0 =~= Seq::<(Seq<char>, JsonTree)>::empty());
        r
    }

    /// An object with one member more.
    pub fn with(self, key: &str, value: Json) -> (r: Json)
        requires
            self.tree() is Object,
        ensures
            r.tree() == JsonTree::Object(self.tree()->Object_0.push((key@, value.tree()))),
    {
        let ghost old_members = self.tree()->Object_0;
        let ghost added = value.tree();
        match self {
            Json::Object(mut members) => {
                let ghost before = members@;
                members.push((String::from_str(key), value));
                let r = Json::Object(members);
                assert(r.tree()->Object_0 =~= old_members.push((key@, added)));
                r
            },
            other => other,
        }
    }

    /// The array of those items.
    pub fn array(items: Vec<Json>) -> (r: Json)
        ensures
            r.tree() == JsonTree::Array(trees(items@)),
    {
        let r = Json::Array(items);
        assert(r.tree()->Array_0 =~= trees(items@));
        r
    }
}

/// The text that a value is, and the empty one where it is none.
pub open spec fn text_or_empty(v: JsonTree) -> Seq<char> {
    match v.as_text() {
        Some(t) => t,
        None => Seq::empty(),
    }
}

/// What a list of values holds.
pub open spec fn trees(v: Seq<Json>) -> Seq<JsonTree> {
    v.map_values(|j: Json| j.tree())
}

/// `serde_json::Value`, which only the reader below takes apart.
#[verifier::external_type_specification]
#[verifier::external_body]
pub struct ExJsonValue(serde_json::Value);

/// What `serde_json::from_str::<serde_json::Value>` makes of a text, or the message with which
/// it refuses the text.
pub uninterp spec fn json_document(text: Seq<char>) -> Result<JsonTree, Seq<char>>;

/// Puts a `serde_json::Value` into the library's form, part for part and in the order in which
/// its maps are walked.
#[verifier::external_body]
fn of_value(v: serde_json::Value) -> (r: Json) {
    match v {
        serde_json::Value::Null => Json::Null,
        serde_json::Value::Bool(b) => Json::Bool(b),
        serde_json::Value::Number(n) => Json::Number(JsonNumber { natural: n.as_u64(), text: n.to_string() }),
        serde_json::Value::String(s) => Json::Text(s),
        serde_json::Value::Array(items) => Json::Array(items.into_iter().map(of_value).collect()),
        serde_json::Value::Object(members) => Json::Object(members.into_iter().map(|(k, m)| (k, of_value(m))).collect()),
    }
}

/// Reads a document with `serde_json::from_str`: what comes back, a value or the text of the
/// error, depends on the document alone.
#[verifier::external_body]
pub(crate) fn read_json(text: &str) -> (r: Result<Json, String>)
    ensures
        match r {
            Ok(j) => json_document(text@) == Ok::<JsonTree, Seq<char>>(j.tree()),
            Err(e) => json_document(text@) == Err::<JsonTree, Seq<char>>(e@),
        },
{
    match serde_json::from_str::<serde_json::Value>(text) {
        Ok(v) => Ok(of_value(v)),
        Err(e) => Err(e.to_string()),
    }
}

/// The compact form, as `serde_json` prints it, of the member `key` of the object that a text
/// holds; `None` where the text is no document or has no such member.
pub uninterp spec fn member_text(text: Seq<char>, key: Seq<char>) -> Option<Seq<char>>;

/// Reads a document with `serde_json::from_str` and prints one member of it with its `Display`:
/// what comes back depends on the document and the key alone.
#[verifier::external_body]
pub(crate) fn read_member_text(text: &str, key: &str) -> (r: Option<String>)
    ensures
        r is Some == member_text(text@, key@) is Some,
        r matches Some(s) ==> member_text(text@, key@) == Some(s@),
        json_document(text@) matches Ok(t) ==> (r is Some == t.get(key@) is Some),
        json_document(text@) is Err ==> r is None,
{
    let v = serde_json::from_str::<serde_json::Value>(text).ok()?;
    v.get(key).map(|m| m.to_string())
}

/// A member of an object is the first of its name.
pub proof fn member_is_found(
    before: Seq<(Seq<char>, JsonTree)>,
    key: Seq<char>,
    value: JsonTree,
    behind: Seq<(Seq<char>, JsonTree)>,
)
    requires
        forall|i: int| 0 <= i < before.len() ==> (#[trigger] before[i]).0 != key,
    ensures
        JsonTree::Object(before + seq![(key, value)] + behind).get(key) == Some(value),
        JsonTree::Object(before + seq![(key, value)] + behind).at(key) == value,
        JsonTree::Object(before).get(key) is None,
        JsonTree::Object(before).at(key) == JsonTree::Null,
    decreases before.len(),
{
    let all = before + seq![(key, value)] + behind;
    if before.len() > 0 {
        let rest = before.skip(1);
        assert(all[0] == before[0]);
        assert(all.skip(1) =~= rest + seq![(key, value)] + behind);
        assert forall|i: int| 0 <= i < rest.len() implies (#[trigger] rest[i]).0 != key by {
            assert(rest[i] == before[i + 1]);
        }
        member_is_found(rest, key, value, behind);
    } else {
        assert(all[0] == (key, value));
    }
}

} // verus!
