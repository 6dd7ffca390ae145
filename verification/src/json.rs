//! JSON documents as the library reads them.
//!
//! The text is parsed by `serde_json`; what it holds is then copied, node by
//! node, into [`Json`], whose meaning is the mathematical [`Tree`].
use crate::number::Real;
use crate::text::same;
use vstd::prelude::*;

verus! {

/// A parsed document, or a part of one, in the hands of `serde_json`.
#[verifier::external_type_specification]
#[verifier::external_body]
pub struct ExValue(serde_json::Value);

/// A number of a parsed document, in the hands of `serde_json`.
#[verifier::external_type_specification]
#[verifier::external_body]
pub struct ExNumber(serde_json::Number);

/// A document: what a text says, whoever parsed it.
pub enum Tree {
    Null,
    Bool(bool),
    Number(NumberView),
    Text(Seq<char>),
    Array(Seq<Tree>),
    Object(Seq<(Seq<char>, Tree)>),
}

/// A number of a document: the integer where it is one that fits, the binary64
/// value, and how it is written.
pub struct NumberView {
    pub int: Option<i64>,
    pub value: Option<Real>,
    pub text: Seq<char>,
}

/// The top of a document, with what hangs below it still unread.
pub enum Node {
    Null,
    Bool(bool),
    Number(serde_json::Number),
    Text(Seq<char>),
    Array(Seq<serde_json::Value>),
    Object(Seq<(Seq<char>, serde_json::Value)>),
}

/// Documents nested deeper than this are refused. `serde_json` itself stops
/// before it.
pub const MAX_DEPTH: u32 = 128;

// ------------------------------------------------- what serde_json computes

/// What `serde_json::from_str` makes of a text; `None` where it reports an error.
pub uninterp spec fn parsed_value(text: Seq<char>) -> Option<serde_json::Value>;

/// What a `serde_json::Value` holds at its top.
pub uninterp spec fn value_node(value: serde_json::Value) -> Node;

/// What `serde_json::Number::as_i64` gives for a number.
pub uninterp spec fn number_int(number: serde_json::Number) -> Option<i64>;

/// What `serde_json::Number::as_f64` gives for a number, by its bits.
pub uninterp spec fn number_value(number: serde_json::Number) -> Option<Real>;

/// How `serde_json` writes a number.
pub uninterp spec fn number_text(number: serde_json::Number) -> Seq<char>;

/// What the standard library's parser of decimal fractions makes of a text, by
/// the bits; `None` where it reports an error.
pub uninterp spec fn fraction_value(text: Seq<char>) -> Option<Real>;

/// `serde_json::from_str`, which is a function of the text alone.
#[verifier::external_body]
fn parse_value(text: &str) -> (value: Option<serde_json::Value>)
    ensures
        value == parsed_value(text@),
{
    serde_json::from_str(text).ok()
}

/// The top of a `serde_json::Value`: which of its variants it is, and what that
/// variant holds. The members of an object come in the order of its map.
#[verifier::external_body]
fn open_value(value: &serde_json::Value) -> (shape: Shape<'_>)
    ensures
        shape.node() == value_node(*value),
{
    match value {
        serde_json::Value::Null => Shape::Null,
        serde_json::Value::Bool(b) => Shape::Bool(*b),
        serde_json::Value::Number(n) => Shape::Number(n),
        serde_json::Value::String(s) => Shape::Text(s),
        serde_json::Value::Array(items) => Shape::Array(items),
        serde_json::Value::Object(members) => Shape::Object(members.iter().collect()),
    }
}

/// `serde_json::Number::as_i64`, a function of the number alone.
#[verifier::external_body]
fn number_as_int(number: &serde_json::Number) -> (whole: Option<i64>)
    ensures
        whole == number_int(*number),
{
    number.as_i64()
}

/// `serde_json::Number::as_f64`, a function of the number alone.
#[verifier::external_body]
fn number_as_value(number: &serde_json::Number) -> (value: Option<Real>)
    ensures
        value == number_value(*number),
{
    number.as_f64().map(|x| Real { bits: x.to_bits() })
}

/// `serde_json::Number` written out, a function of the number alone.
#[verifier::external_body]
fn number_as_text(number: &serde_json::Number) -> (text: String)
    ensures
        text@ == number_text(*number),
{
    number.to_string()
}

/// `str::parse` to a binary64 value, a function of the text alone. That it is to
/// parse to such a value it is told by the type of `serde_json::Number::as_f64`.
#[verifier::external_body]
fn parse_fraction(text: &str) -> (value: Option<Real>)
    ensures
        value == fraction_value(text@),
{
    let mut value = serde_json::Number::from(0u8).as_f64();
    value = text.parse().ok();
    value.map(|x| Real { bits: x.to_bits() })
}

/// The top of a `serde_json::Value`, borrowed.
enum Shape<'a> {
    Null,
    Bool(bool),
    Number(&'a serde_json::Number),
    Text(&'a String),
    Array(&'a Vec<serde_json::Value>),
    Object(Vec<(&'a String, &'a serde_json::Value)>),
}

impl<'a> Shape<'a> {
    spec fn node(self) -> Node {
        match self {
            Shape::Null => Node::Null,
            Shape::Bool(b) => Node::Bool(b),
            Shape::Number(n) => Node::Number(*n),
            Shape::Text(s) => Node::Text(s@),
            Shape::Array(items) => Node::Array(items@),
            Shape::Object(members) => Node::Object(
                members@.map_values(|m: (&String, &serde_json::Value)| (m.0@, *m.1)),
            ),
        }
    }
}

// ------------------------------------------------------------------ documents

/// A JSON document.
#[derive(Debug)]
pub enum Json {
    Null,
    Bool(bool),
    Number(JsonNumber),
    Text(String),
    Array(Vec<Json>),
    Object(Vec<(String, Json)>),
}

/// A number of a JSON document.
#[derive(Debug)]
pub struct JsonNumber {
    pub int: Option<i64>,
    pub value: Option<Real>,
    pub text: String,
}

impl JsonNumber {
    pub open spec fn view(&self) -> NumberView {
        NumberView { int: self.int, value: self.value, text: self.text@ }
    }
}

impl Json {
    /// The document as a tree.
    pub open spec fn view(&self) -> Tree
        decreases self,
    {
        match self {
            Json::Null => Tree::Null,
            Json::Bool(b) => Tree::Bool(*b),
            Json::Number(n) => Tree::Number(n@),
            Json::Text(s) => Tree::Text(s@),
            Json::Array(items) => Tree::Array(
                Seq::new(
                    items@.len(),
                    |i: int|
                        if 0 <= i < items@.len() {
                            items@[i].view()
                        } else {
                            Tree::Null
                        },
                ),
            ),
            Json::Object(members) => Tree::Object(
                Seq::new(
                    members@.len(),
                    |i: int|
                        if 0 <= i < members@.len() {
                            (members@[i].0@, members@[i].1.view())
                        } else {
                            (Seq::<char>::empty(), Tree::Null)
                        },
                ),
            ),
        }
    }
}

/// What `serde_json` holds of a number.
pub open spec fn number_view(number: serde_json::Number) -> NumberView {
    NumberView {
        int: number_int(number),
        value: number_value(number),
        text: number_text(number),
    }
}

/// The whole document that `value` holds; `None` where it is nested `depth`
/// levels deep or more.
pub open spec fn tree_of(value: serde_json::Value, depth: nat) -> Option<Tree>
    decreases depth,
{
    if depth == 0 {
        None
    } else {
        let below = (depth - 1) as nat;
        match value_node(value) {
            Node::Null => Some(Tree::Null),
            Node::Bool(b) => Some(Tree::Bool(b)),
            Node::Number(n) => Some(Tree::Number(number_view(n))),
            Node::Text(s) => Some(Tree::Text(s)),
            Node::Array(items) => if forall|i: int|
                0 <= i < items.len() ==> tree_of(#[trigger] items[i], below) is Some {
                Some(Tree::Array(Seq::new(items.len(), |i: int| tree_of(items[i], below)->0)))
            } else {
                None
            },
            Node::Object(members) => if forall|i: int|
                0 <= i < members.len() ==> tree_of((#[trigger] members[i]).1, below) is Some {
                Some(
                    Tree::Object(
                        Seq::new(
                            members.len(),
                            |i: int| (members[i].0, tree_of(members[i].1, below)->0),
                        ),
                    ),
                )
            } else {
                None
            },
        }
    }
}

/// The document that a text writes; `None` where `serde_json` refuses the text
/// or the document is nested too deep.
pub open spec fn document(text: Seq<char>) -> Option<Tree> {
    match parsed_value(text) {
        Some(value) => tree_of(value, MAX_DEPTH as nat),
        None => None,
    }
}

/// Copies what `value` holds.
fn copy_value(value: &serde_json::Value, depth: u32) -> (json: Option<Json>)
    ensures
        match json {
            Some(json) => tree_of(*value, depth as nat) == Some(json@),
            None => tree_of(*value, depth as nat) is None,
        },
    decreases depth,
{
    if depth == 0 {
        return None;
    }
    let ghost below = (depth - 1) as nat;
    match open_value(value) {
        Shape::Null => Some(Json::Null),
        Shape::Bool(b) => Some(Json::Bool(b)),
        Shape::Number(n) => Some(
            Json::Number(
                JsonNumber {
                    int: number_as_int(n),
                    value: number_as_value(n),
                    text: number_as_text(n),
                },
            ),
        ),
        Shape::Text(s) => Some(Json::Text(s.clone())),
        Shape::Array(items) => {
            let mut copied: Vec<Json> = Vec::new();
            for i in 0..items.len()
                invariant
                    depth > 0,
                    below == depth - 1,
                    copied@.len() == i,
                    value_node(*value) == Node::Array(items@),
                    forall|j: int|
                        0 <= j < i ==> tree_of(#[trigger] items@[j], below) == Some(copied@[j]@),
            {
                match copy_value(&items[i], depth - 1) {
                    Some(json) => {
                        copied.push(json);
                    },
                    None => {
                        assert(tree_of(items@[i as int], below) is None);
                        return None;
                    },
                }
            }
            let json = Json::Array(copied);
            proof {
                let tree = tree_of(*value, depth as nat);
                assert(tree is Some);
                assert(tree->0->Array_0 =~= json@->Array_0);
            }
            Some(json)
        },
        Shape::Object(members) => {
            let ghost named = members@.map_values(
                |m: (&String, &serde_json::Value)| (m.0@, *m.1),
            );
            let mut copied: Vec<(String, Json)> = Vec::new();
            for i in 0..members.len()
                invariant
                    depth > 0,
                    below == depth - 1,
                    copied@.len() == i,
                    named == members@.map_values(
                        |m: (&String, &serde_json::Value)| (m.0@, *m.1),
                    ),
                    value_node(*value) == Node::Object(named),
                    forall|j: int|
                        0 <= j < i ==> tree_of((#[trigger] named[j]).1, below) == Some(
                            copied@[j].1@,
                        ) && copied@[j].0@ == named[j].0,
            {
                let member = members[i];
                match copy_value(member.1, depth - 1) {
                    Some(json) => {
                        copied.push((member.0.clone(), json));
                    },
                    None => {
                        assert(tree_of(named[i as int].1, below) is None);
                        return None;
                    },
                }
            }
            let json = Json::Object(copied);
            proof {
                let tree = tree_of(*value, depth as nat);
                assert(tree is Some);
                assert(tree->0->Object_0 =~= json@->Object_0);
            }
            Some(json)
        },
    }
}

/// The document that `text` writes.
pub fn parse_json(text: &str) -> (json: Option<Json>)
    ensures
        match json {
            Some(json) => document(text@) == Some(json@),
            None => document(text@) is None,
        },
{
    match parse_value(text) {
        Some(value) => copy_value(&value, MAX_DEPTH),
        None => None,
    }
}

impl Clone for Json {
    fn clone(&self) -> (copy: Self)
        ensures
            copy@ == self@,
        decreases self,
    {
        match self {
            Json::Null => Json::Null,
            Json::Bool(b) => Json::Bool(*b),
            Json::Number(n) => Json::Number(
                JsonNumber { int: n.int, value: n.value, text: n.text.clone() },
            ),
            Json::Text(s) => Json::Text(s.clone()),
            Json::Array(items) => {
                let mut copied: Vec<Json> = Vec::new();
                for i in 0..items.len()
                    invariant
                        *self == Json::Array(*items),
                        copied@.len() == i,
                        forall|j: int| 0 <= j < i ==> (#[trigger] copied@[j])@ == items@[j]@,
                {
                    assert(decreases_to!(self => self->Array_0));
                    assert(decreases_to!(self => self->Array_0@));
                    assert(decreases_to!(self => self->Array_0@[i as int]));
                    copied.push(items[i].clone());
                }
                let copy = Json::Array(copied);
                assert(copy@->Array_0 =~= self@->Array_0);
                copy
            },
            Json::Object(members) => {
                let mut copied: Vec<(String, Json)> = Vec::new();
                for i in 0..members.len()
                    invariant
                        *self == Json::Object(*members),
                        copied@.len() == i,
                        forall|j: int|
                            0 <= j < i ==> (#[trigger] copied@[j]).0@ == members@[j].0@
                                && copied@[j].1@ == members@[j].1@,
                {
                    assert(decreases_to!(self => self->Object_0));
                    assert(decreases_to!(self => self->Object_0@));
                    assert(decreases_to!(self => self->Object_0@[i as int]));
                    assert(decreases_to!(self => self->Object_0@[i as int].1));
                    copied.push((members[i].0.clone(), members[i].1.clone()));
                }
                let copy = Json::Object(copied);
                assert(copy@->Object_0 =~= self@->Object_0);
                copy
            },
        }
    }
}

// -------------------------------------------------------------------- reading

/// The value of the first member called `key`.
pub open spec fn member(members: Seq<(Seq<char>, Tree)>, key: Seq<char>) -> Option<Tree>
    decreases members.len(),
{
    if members.len() == 0 {
        None
    } else if members[0].0 == key {
        Some(members[0].1)
    } else {
        member(members.drop_first(), key)
    }
}

impl Tree {
    /// The member of an object called `key`; nothing for anything else.
    pub open spec fn field(self, key: Seq<char>) -> Option<Tree> {
        match self {
            Tree::Object(members) => member(members, key),
            _ => None,
        }
    }

    /// The items of an array.
    pub open spec fn items(self) -> Option<Seq<Tree>> {
        match self {
            Tree::Array(items) => Some(items),
            _ => None,
        }
    }

    /// The members of an object.
    pub open spec fn members(self) -> Option<Seq<(Seq<char>, Tree)>> {
        match self {
            Tree::Object(members) => Some(members),
            _ => None,
        }
    }

    /// The characters of a string.
    pub open spec fn text(self) -> Option<Seq<char>> {
        match self {
            Tree::Text(s) => Some(s),
            _ => None,
        }
    }

    /// The integer that a number is.
    pub open spec fn whole(self) -> Option<i64> {
        match self {
            Tree::Number(n) => n.int,
            _ => None,
        }
    }

    /// The binary64 value of a number.
    pub open spec fn value(self) -> Option<Real> {
        match self {
            Tree::Number(n) => n.value,
            _ => None,
        }
    }

    /// The integer that a number is, or what is left of its value without the
    /// fraction.
    pub open spec fn rough_whole(self) -> Option<int> {
        match self.whole() {
            Some(n) => Some(n as int),
            None => match self.value() {
                Some(x) => Some(x.whole()),
                None => None,
            },
        }
    }

    /// The value of the member `key`, given as a number or spelled out.
    pub open spec fn field_value(self, key: Seq<char>) -> Option<Real> {
        match self.field(key) {
            Some(Tree::Number(n)) => n.value,
            Some(Tree::Text(s)) => fraction_value(s),
            _ => None,
        }
    }

    /// The text of the member `key`: a string that is not empty, or a number as
    /// it is written.
    pub open spec fn field_text(self, key: Seq<char>) -> Option<Seq<char>> {
        match self.field(key) {
            Some(Tree::Text(s)) => if s.len() > 0 {
                Some(s)
            } else {
                None
            },
            Some(Tree::Number(n)) => Some(n.text),
            _ => None,
        }
    }
}

/// The tree of a part that may be missing.
pub open spec fn part(json: Option<&Json>) -> Option<Tree> {
    match json {
        Some(json) => Some(json@),
        None => None,
    }
}

/// The trees of a list of documents.
pub open spec fn trees(items: Seq<Json>) -> Seq<Tree> {
    items.map_values(|j: Json| j@)
}

/// The names and trees of the members of an object.
pub open spec fn named_trees(members: Seq<(String, Json)>) -> Seq<(Seq<char>, Tree)> {
    members.map_values(|m: (String, Json)| (m.0@, m.1@))
}

impl Json {
    /// The member of an object called `key`.
    pub fn get(&self, key: &str) -> (found: Option<&Json>)
        ensures
            part(found) == self@.field(key@),
    {
        match self {
            Json::Object(members) => {
                let ghost all = self@->Object_0;
                assert(all.subrange(0, all.len() as int) =~= all);
                for i in 0..members.len()
                    invariant
                        self@ == Tree::Object(all),
                        all.len() == members@.len(),
                        forall|j: int|
                            0 <= j < all.len() ==> (#[trigger] all[j]) == (
                                members@[j].0@,
                                members@[j].1@,
                            ),
                        member(all, key@) == member(
                            all.subrange(i as int, all.len() as int),
                            key@,
                        ),
                {
                    if same(&members[i].0, key) {
                        return Some(&members[i].1);
                    }
                    assert(all.subrange(i as int, all.len() as int).drop_first() =~= all.subrange(
                        i + 1,
                        all.len() as int,
                    ));
                }
                None
            },
            _ => None,
        }
    }

    /// The items of an array.
    pub fn as_array(&self) -> (items: Option<&Vec<Json>>)
        ensures
            match items {
                Some(items) => self@.items() == Some(trees(items@)),
                None => self@.items() is None,
            },
    {
        match self {
            Json::Array(items) => {
                assert(self@->Array_0 =~= trees(items@));
                Some(items)
            },
            _ => None,
        }
    }

    /// The members of an object.
    pub fn as_object(&self) -> (members: Option<&Vec<(String, Json)>>)
        ensures
            match members {
                Some(members) => self@.members() == Some(named_trees(members@)),
                None => self@.members() is None,
            },
    {
        match self {
            Json::Object(members) => {
                assert(self@->Object_0 =~= named_trees(members@));
                Some(members)
            },
            _ => None,
        }
    }

    /// The characters of a string.
    pub fn as_text(&self) -> (text: Option<&String>)
        ensures
            match text {
                Some(text) => self@.text() == Some(text@),
                None => self@.text() is None,
            },
    {
        match self {
            Json::Text(s) => Some(s),
            _ => None,
        }
    }

    /// The integer that a number is.
    pub fn as_i64(&self) -> (n: Option<i64>)
        ensures
            n == self@.whole(),
    {
        match self {
            Json::Number(n) => n.int,
            _ => None,
        }
    }

    /// The binary64 value of a number.
    pub fn as_value(&self) -> (x: Option<Real>)
        ensures
            x == self@.value(),
    {
        match self {
            Json::Number(n) => n.value,
            _ => None,
        }
    }

    /// The integer that a number is, or its value without the fraction.
    pub fn as_rough_i64(&self) -> (n: Option<i64>)
        ensures
            match n {
                Some(n) => self@.rough_whole() == Some(n as int),
                None => self@.rough_whole() is None,
            },
    {
        match self.as_i64() {
            Some(n) => Some(n),
            None => match self.as_value() {
                Some(x) => Some(x.to_i64()),
                None => None,
            },
        }
    }

    /// Whether this is the value `null`.
    pub fn is_null(&self) -> (r: bool)
        ensures
            r == (self@ is Null),
    {
        match self {
            Json::Null => true,
            _ => false,
        }
    }
}

/// The value of the member `key`, given as a number or spelled out.
pub fn num_field(json: &Json, key: &str) -> (value: Option<Real>)
    ensures
        value == json@.field_value(key@),
{
    match json.get(key) {
        Some(Json::Number(n)) => n.value,
        Some(Json::Text(s)) => parse_fraction(s),
        _ => None,
    }
}

/// The text of the member `key`: a string that is not empty, or a number as it
/// is written.
pub fn str_field(json: &Json, key: &str) -> (text: Option<String>)
    ensures
        match text {
            Some(text) => json@.field_text(key@) == Some(text@),
            None => json@.field_text(key@) is None,
        },
{
    match json.get(key) {
        Some(Json::Text(s)) => if s.as_str().is_empty() {
            None
        } else {
            Some(s.clone())
        },
        Some(Json::Number(n)) => Some(n.text.clone()),
        _ => None,
    }
}

// ------------------------------------------------------------------ laws

/// The member under a key is the first that is called so, and there is none exactly where
/// no member is.
pub proof fn law_member(members: Seq<(Seq<char>, Tree)>, key: Seq<char>)
    ensures
        match Tree::Object(members).field(key) {
            Some(found) => exists|i: int|
                0 <= i < members.len() && #[trigger] members[i] == (key, found) && forall|j: int|
                    0 <= j < i ==> (#[trigger] members[j]).0 != key,
            None => forall|i: int| 0 <= i < members.len() ==> (#[trigger] members[i]).0 != key,
        },
    decreases members.len(),
{
    if members.len() > 0 {
        if members[0].0 == key {
            assert(members[0] == (key, members[0].1));
        } else {
            let rest = members.drop_first();
            law_member(rest, key);
            match member(rest, key) {
                Some(found) => {
                    let i = choose|i: int|
                        0 <= i < rest.len() && #[trigger] rest[i] == (key, found) && forall|j: int|
                            0 <= j < i ==> (#[trigger] rest[j]).0 != key;
                    assert(members[i + 1] == (key, found));
                    assert forall|j: int| 0 <= j < i + 1 implies (
                    #[trigger] members[j]).0 != key by {
                        if j > 0 {
                            assert(rest[j - 1] == members[j]);
                        }
                    }
                },
                None => {
                    assert forall|i: int| 0 <= i < members.len() implies (
                    #[trigger] members[i]).0 != key by {
                        if i > 0 {
                            assert(rest[i - 1] == members[i]);
                        }
                    }
                },
            }
        }
    }
}

/// Each way to read a document gives what it holds only where it is of that kind: numbers
/// as numbers, text as text, lists as lists.
pub proof fn law_kinds(tree: Tree, n: NumberView, s: Seq<char>, items: Seq<Tree>, key: Seq<char>)
    ensures
        tree == Tree::Number(n) ==> tree.whole() == n.int && tree.value() == n.value,
        tree !is Number ==> tree.whole() is None && tree.value() is None,
        tree == Tree::Text(s) ==> tree.text() == Some(s),
        tree !is Text ==> tree.text() is None,
        tree == Tree::Array(items) ==> tree.items() == Some(items),
        tree !is Array ==> tree.items() is None,
        tree !is Object ==> tree.field(key) is None && tree.members() is None,
        tree == Tree::Number(n) && n.int is Some ==> tree.rough_whole() == Some(n.int->0 as int),
        tree == Tree::Number(n) && n.int is None && n.value is Some ==> tree.rough_whole() == Some(
            n.value->0.whole(),
        ),
        tree.field(key) == Some(Tree::Number(n)) ==> tree.field_value(key) == n.value,
        tree.field(key) == Some(Tree::Text(s)) ==> tree.field_value(key) == fraction_value(s),
        tree.field(key) is None ==> tree.field_value(key) is None && tree.field_text(key) is None,
        tree.field(key) == Some(Tree::Text(s)) && s.len() > 0 ==> tree.field_text(key) == Some(s),
        tree.field(key) == Some(Tree::Text(s)) && s.len() == 0 ==> tree.field_text(key) is None,
        tree.field(key) == Some(Tree::Number(n)) ==> tree.field_text(key) == Some(n.text),
{
}

} // verus!
