//! JSON documents.

use vstd::prelude::*;

use crate::tensor::scalar::Real;

verus! {

/// A JSON number, read in three ways: as a `u64` and as an `i64` where it is a whole number in
/// their range and was written as one, and as a binary64 number near to it.
#[derive(Clone, Copy, PartialEq, Eq, Structural, Debug)]
pub struct Number {
    pub unsigned: Option<u64>,
    pub signed: Option<i64>,
    pub real: Option<Real>,
}

/// A JSON document. The members of an object are in the order in which they first occur.
#[derive(Debug)]
pub enum Json {
    Null,
    Bool(bool),
    Number(Number),
    Text(String),
    Array(Vec<Json>),
    Object(Vec<(String, Json)>),
}

/// The contents of a JSON document.
pub enum JsonView {
    Null,
    Bool(bool),
    Number(Number),
    Text(Seq<char>),
    Array(Seq<JsonView>),
    Object(Seq<(Seq<char>, JsonView)>),
}

impl View for Json {
    type V = JsonView;

    open spec fn view(&self) -> JsonView
        decreases self,
    {
        match self {
            Json::Null => JsonView::Null,
            Json::Bool(b) => JsonView::Bool(*b),
            Json::Number(n) => JsonView::Number(*n),
            Json::Text(s) => JsonView::Text(s@),
            Json::Array(v) => JsonView::Array(
                Seq::new(
                    v@.len(),
                    |i: int|
                        if 0 <= i < v@.len() {
                            v@[i].view()
                        } else {
                            JsonView::Null
                        },
                ),
            ),
            Json::Object(v) => JsonView::Object(
                Seq::new(
                    v@.len(),
                    |i: int|
                        if 0 <= i < v@.len() {
                            (v@[i].0@, v@[i].1.view())
                        } else {
                            (Seq::empty(), JsonView::Null)
                        },
                ),
            ),
        }
    }
}

/// `serde_json::Value`, a parsed document.
#[verifier::external_type_specification]
#[verifier::external_body]
pub struct ExValue(serde_json::Value);

/// `serde_json::Error`, the reason why a text is no document.
#[verifier::external_type_specification]
#[verifier::external_body]
pub struct ExError(serde_json::Error);

/// What a `serde_json::Value` holds.
pub uninterp spec fn value_contents(v: serde_json::Value) -> JsonView;

/// The document that `serde_json` reads from a text, or `None` where it reports an error.
pub uninterp spec fn text_contents(s: Seq<char>) -> Option<JsonView>;

/// `serde_json::from_str` into a `serde_json::Value`: whether it succeeds, and what it returns
/// then, depends on the text alone.
#[verifier::external_body]
fn read_value(s: &str) -> (r: Result<serde_json::Value, serde_json::Error>)
    ensures
        match r {
            Ok(v) => text_contents(s@) == Some(value_contents(v)),
            Err(_) => text_contents(s@) is None,
        },
{
    serde_json::from_str(s)
}

enum Node {
    Null,
    Bool(bool),
    Number(Number),
    Text(String),
    Array(Vec<serde_json::Value>),
    Object(Vec<(String, serde_json::Value)>),
}

spec fn node_contents(n: Node) -> JsonView {
    match n {
        Node::Null => JsonView::Null,
        Node::Bool(b) => JsonView::Bool(b),
        Node::Number(x) => JsonView::Number(x),
        Node::Text(s) => JsonView::Text(s@),
        Node::Array(v) => JsonView::Array(v@.map_values(|x: serde_json::Value| value_contents(x))),
        Node::Object(v) => JsonView::Object(
            v@.map_values(|e: (String, serde_json::Value)| (e.0@, value_contents(e.1))),
        ),
    }
}

/// The variants of `serde_json::Value`, one for one: an array hands out its items and an object
/// its members in their order, and a `serde_json::Number` is read through `as_u64`, `as_i64` and
/// `as_f64`.
#[verifier::external_body]
fn open_value(v: serde_json::Value) -> (r: Node)
    ensures
        node_contents(r) == value_contents(v),
{
    match v {
        serde_json::Value::Null => Node::Null,
        serde_json::Value::Bool(b) => Node::Bool(b),
        serde_json::Value::Number(n) => Node::Number(Number {
            unsigned: n.as_u64(),
            signed: n.as_i64(),
            real: n.as_f64().map(|x| Real { bits: x.to_bits() }),
        }),
        serde_json::Value::String(s) => Node::Text(s),
        serde_json::Value::Array(a) => Node::Array(a),
        serde_json::Value::Object(m) => Node::Object(m.into_iter().collect()),
    }
}

fn build(v: serde_json::Value) -> (r: Json)
    ensures
        r@ == value_contents(v),
    decreases value_contents(v),
{
    let ghost contents = value_contents(v);
    match open_value(v) {
        Node::Null => Json::Null,
        Node::Bool(b) => Json::Bool(b),
        Node::Number(n) => Json::Number(n),
        Node::Text(s) => Json::Text(s),
        Node::Array(mut items) => {
            let ghost all = items@;
            let mut out: Vec<Json> = Vec::new();
            while items.len() > 0
                invariant
                    contents == JsonView::Array(
                        all.map_values(|x: serde_json::Value| value_contents(x)),
                    ),
                    out@.len() + items@.len() == all.len(),
                    items@ == all.skip(out@.len() as int),
                    forall|j: int|
                        0 <= j < out@.len() ==> (#[trigger] out@[j])@ == value_contents(all[j]),
                    contents == value_contents(v),
                decreases items.len(),
            {
                let ghost k = out@.len() as int;
                let x = items.remove(0);
                proof {
                    assert(x == all[k]);
                    assert(contents->Array_0[k] == value_contents(x));
                    assert(decreases_to!(contents => contents->Array_0[k]));
                }
                out.push(build(x));
                assert(items@ =~= all.skip(out@.len() as int));
            }
            let r = Json::Array(out);
            assert(r@->Array_0 =~= contents->Array_0);
            r
        },
        Node::Object(mut members) => {
            let ghost all = members@;
            let mut out: Vec<(String, Json)> = Vec::new();
            while members.len() > 0
                invariant
                    contents == JsonView::Object(
                        all.map_values(
                            |e: (String, serde_json::Value)| (e.0@, value_contents(e.1)),
                        ),
                    ),
                    out@.len() + members@.len() == all.len(),
                    members@ == all.skip(out@.len() as int),
                    forall|j: int|
                        0 <= j < out@.len() ==> (#[trigger] out@[j]).0@ == all[j].0@ && out@[j].1@
                            == value_contents(all[j].1),
                    contents == value_contents(v),
                decreases members.len(),
            {
                let ghost k = out@.len() as int;
                let (name, x) = members.remove(0);
                proof {
                    assert((name, x) == all[k]);
                    assert(contents->Object_0[k] == (name@, value_contents(x)));
                    assert(decreases_to!(contents => contents->Object_0[k].1));
                }
                out.push((name, build(x)));
                assert(members@ =~= all.skip(out@.len() as int));
            }
            let r = Json::Object(out);
            assert(r@->Object_0 =~= contents->Object_0);
            r
        },
    }
}

/// Why a text is no JSON document, as far as it matters here.
#[derive(Clone, Copy, PartialEq, Eq, Structural, Debug)]
pub enum JsonError {
    Syntax,
}

/// Reads a JSON document.
pub fn parse(s: &str) -> (r: Result<Json, JsonError>)
    ensures
        match r {
            Ok(j) => text_contents(s@) == Some(j@),
            Err(_) => text_contents(s@) is None,
        },
{
    match read_value(s) {
        Ok(v) => Ok(build(v)),
        Err(_) => Err(JsonError::Syntax),
    }
}

/// The value of the member called `key`, if there is one.
pub open spec fn member(j: JsonView, key: Seq<char>) -> Option<JsonView> {
    match j {
        JsonView::Object(members) => member_from(members, key, 0),
        _ => None,
    }
}

/// The value of the first member called `key` at or after a position.
pub open spec fn member_from(members: Seq<(Seq<char>, JsonView)>, key: Seq<char>, from: int) -> Option<
    JsonView,
>
    decreases members.len() - from,
{
    if from < 0 || from >= members.len() {
        None
    } else if members[from].0 == key {
        Some(members[from].1)
    } else {
        member_from(members, key, from + 1)
    }
}

/// The members of an object, in the document and in its contents.
pub proof fn lemma_object_view(members: Vec<(String, Json)>)
    ensures
        Json::Object(members)@ is Object,
        Json::Object(members)@->Object_0.len() == members@.len(),
        forall|i: int|
            0 <= i < members@.len() ==> (#[trigger] Json::Object(members)@->Object_0[i]) == (
                members@[i].0@,
                members@[i].1@,
            ),
{
    let pairs = Seq::new(members@.len(), |i: int| (members@[i].0@, members@[i].1@));
    reveal_with_fuel(<Json as View>::view, 2);
    assert(Json::Object(members)@->Object_0 =~= pairs);
}

/// The items of an array, in the document and in its contents.
pub proof fn lemma_array_view(items: Vec<Json>)
    ensures
        Json::Array(items)@ is Array,
        Json::Array(items)@->Array_0.len() == items@.len(),
        forall|i: int|
            0 <= i < items@.len() ==> (#[trigger] Json::Array(items)@->Array_0[i]) == items@[i]@,
{
    let all = Seq::new(items@.len(), |i: int| items@[i]@);
    reveal_with_fuel(<Json as View>::view, 2);
    assert(Json::Array(items)@->Array_0 =~= all);
}

/// The value of a name is that of the first member called so; without such a member there is none.
pub proof fn lemma_first_member(members: Seq<(Seq<char>, JsonView)>, key: Seq<char>)
    ensures
        match member(JsonView::Object(members), key) {
            Some(v) => exists|k: int|
                0 <= k < members.len() && #[trigger] members[k] == (key, v) && forall|l: int|
                    0 <= l < k ==> (#[trigger] members[l]).0 != key,
            None => forall|k: int| 0 <= k < members.len() ==> (#[trigger] members[k]).0 != key,
        },
{
    lemma_member_from(members, key, 0);
}

proof fn lemma_member_from(members: Seq<(Seq<char>, JsonView)>, key: Seq<char>, from: int)
    requires
        0 <= from,
    ensures
        match member_from(members, key, from) {
            Some(v) => exists|k: int|
                from <= k < members.len() && #[trigger] members[k] == (key, v) && forall|l: int|
                    from <= l < k ==> (#[trigger] members[l]).0 != key,
            None => forall|k: int| from <= k < members.len() ==> (#[trigger] members[k]).0 != key,
        },
    decreases members.len() - from,
{
    if from < members.len() {
        if members[from].0 == key {
            assert(members[from] == (key, members[from].1));
        } else {
            lemma_member_from(members, key, from + 1);
        }
    }
}

impl Json {
    /// The value of the member called `key`, if this is an object that has it.
    pub fn get(&self, key: &str) -> (r: Option<&Json>)
        ensures
            match r {
                Some(j) => member(self@, key@) == Some(j@),
                None => member(self@, key@) is None,
            },
    {
        match self {
            Json::Object(members) => {
                let name = key.to_owned();
                let n = members.len();
                let ghost pairs = self@->Object_0;
                proof {
                    lemma_object_view(*members);
                }
                let mut i: usize = 0;
                while i < n
                    invariant
                        n == members@.len(),
                        i <= n,
                        name@ == key@,
                        *self == Json::Object(*members),
                        self@ == JsonView::Object(pairs),
                        pairs.len() == n,
                        forall|j: int|
                            0 <= j < n ==> (#[trigger] pairs[j]) == (
                                members@[j].0@,
                                members@[j].1@,
                            ),
                        member_from(pairs, key@, 0) == member_from(pairs, key@, i as int),
                    decreases n - i,
                {
                    assert(pairs[i as int] == (members@[i as int].0@, members@[i as int].1@));
                    if members[i].0 == name {
                        return Some(&members[i].1);
                    }
                    i = i + 1;
                }
                None
            },
            _ => None,
        }
    }
}

} // verus!
