//! JSON values: what a `serde_json::Value` holds, building and reading one,
//! and its text.

use vstd::prelude::*;
use vstd::string::*;
use vstd::utf8::valid_utf8;

use crate::text::same;

verus! {

/// `serde_json::Value`, carried as it is; [`tree`] names what it holds.
#[verifier::external_type_specification]
#[verifier::external_body]
pub struct ExValue(serde_json::Value);

/// A JSON value: an object maps each of its keys to one value.
pub enum Tree {
    Null,
    Bool(bool),
    /// An integer from -2^63 up to, not including, 2^64.
    Int(int),
    /// Any other number, as it is written.
    Float(Seq<char>),
    Str(Seq<char>),
    Arr(Seq<Tree>),
    Obj(Map<Seq<char>, Tree>),
}

/// What a `serde_json::Value` holds.
pub uninterp spec fn tree(v: serde_json::Value) -> Tree;

/// The compact text that serde_json writes for a value.
pub uninterp spec fn json_text(t: Tree) -> Seq<char>;

/// The value that serde_json reads from a text, none where the text is no JSON.
pub uninterp spec fn json_value(text: Seq<char>) -> Option<Tree>;

/// What a list of values holds.
pub open spec fn trees(v: Seq<serde_json::Value>) -> Seq<Tree> {
    v.map_values(|x: serde_json::Value| tree(x))
}

/// No two members have the same key.
pub open spec fn distinct_keys(m: Seq<(String, serde_json::Value)>) -> bool {
    forall|i: int, j: int| 0 <= i < j < m.len() ==> (#[trigger] m[i]).0@ != (#[trigger] m[j]).0@
}

/// The mapping that members make.
pub open spec fn members_map(m: Seq<(String, serde_json::Value)>) -> Map<Seq<char>, Tree>
    decreases m.len(),
{
    if m.len() == 0 {
        Map::empty()
    } else {
        members_map(m.drop_last()).insert(m.last().0@, tree(m.last().1))
    }
}

/// The parts a JSON value is made of.
pub enum Parts {
    Null,
    Bool(bool),
    Int(i64),
    Uint(u64),
    Str(String),
    Arr(Vec<serde_json::Value>),
    Obj(Vec<(String, serde_json::Value)>),
}

/// The value that parts make.
pub open spec fn parts_tree(p: Parts) -> Tree {
    match p {
        Parts::Null => Tree::Null,
        Parts::Bool(b) => Tree::Bool(b),
        Parts::Int(i) => Tree::Int(i as int),
        Parts::Uint(u) => Tree::Int(u as int),
        Parts::Str(s) => Tree::Str(s@),
        Parts::Arr(v) => Tree::Arr(trees(v@)),
        Parts::Obj(m) => Tree::Obj(members_map(m@)),
    }
}

/// Builds a `serde_json::Value` variant from its parts. An object's members, of
/// which no two have the same key, are collected into a `serde_json::Map`.
#[verifier::external_body]
fn make(p: Parts) -> (v: serde_json::Value)
    requires
        p matches Parts::Obj(m) ==> distinct_keys(m@),
    ensures
        tree(v) == parts_tree(p),
{
    match p {
        Parts::Null => serde_json::Value::Null,
        Parts::Bool(b) => serde_json::Value::Bool(b),
        Parts::Int(i) => serde_json::Value::from(i),
        Parts::Uint(u) => serde_json::Value::from(u),
        Parts::Str(s) => serde_json::Value::String(s),
        Parts::Arr(v) => serde_json::Value::Array(v),
        Parts::Obj(m) => serde_json::Value::Object(m.into_iter().collect()),
    }
}

/// `serde_json::Value::get` with a key answers the member of that key, none
/// where there is none or the value is no object.
#[verifier::external_body]
pub(crate) fn member<'a>(v: &'a serde_json::Value, key: &str) -> (r: Option<&'a serde_json::Value>)
    ensures
        match r {
            Some(m) => tree(*v) is Obj && tree(*v)->Obj_0.contains_key(key@) && tree(*m)
                == tree(*v)->Obj_0[key@],
            None => !(tree(*v) is Obj && tree(*v)->Obj_0.contains_key(key@)),
        },
{
    v.get(key)
}

/// `serde_json::Value::as_str` answers the text of a string, none for any other
/// value.
pub assume_specification[ serde_json::Value::as_str ](v: &serde_json::Value) -> (r: Option<&str>)
    ensures
        match r {
            Some(s) => tree(*v) == Tree::Str(s@),
            None => !(tree(*v) is Str),
        },
;

/// `serde_json::Value::as_bool` answers a boolean, none for any other value.
pub assume_specification[ serde_json::Value::as_bool ](v: &serde_json::Value) -> (r: Option<bool>)
    ensures
        match r {
            Some(b) => tree(*v) == Tree::Bool(b),
            None => !(tree(*v) is Bool),
        },
;

/// `serde_json::Value::as_u64` answers an integer of its range, none for any
/// other value.
pub assume_specification[ serde_json::Value::as_u64 ](v: &serde_json::Value) -> (r: Option<u64>)
    ensures
        match r {
            Some(u) => tree(*v) == Tree::Int(u as int),
            None => !(tree(*v) is Int && 0 <= tree(*v)->Int_0 <= u64::MAX),
        },
;

/// `serde_json::Value::as_i64` answers an integer of its range, none for any
/// other value.
pub assume_specification[ serde_json::Value::as_i64 ](v: &serde_json::Value) -> (r: Option<i64>)
    ensures
        match r {
            Some(i) => tree(*v) == Tree::Int(i as int),
            None => !(tree(*v) is Int && i64::MIN <= tree(*v)->Int_0 <= i64::MAX),
        },
;

/// `serde_json::Value::is_object` tells whether a value is an object.
pub assume_specification[ serde_json::Value::is_object ](v: &serde_json::Value) -> (r: bool)
    ensures
        r == (tree(*v) is Obj),
;

/// Cloning a `serde_json::Value` keeps what it holds.
pub assume_specification[ <serde_json::Value as Clone>::clone ](v: &serde_json::Value) -> (r:
    serde_json::Value)
    ensures
        tree(r) == tree(*v),
;

/// `serde_json::Value::to_string` writes a value's compact text.
#[verifier::external_body]
pub(crate) fn print(v: &serde_json::Value) -> (r: String)
    ensures
        r@ == json_text(tree(*v)),
{
    v.to_string()
}

/// `serde_json::from_str` reads a value from a text, none where the text is no
/// JSON.
#[verifier::external_body]
pub(crate) fn read(text: &str) -> (r: Option<serde_json::Value>)
    ensures
        match r {
            Some(v) => json_value(text@) == Some(tree(v)),
            None => json_value(text@) is None,
        },
{
    serde_json::from_str(text).ok()
}

/// What serde_json reads from a body: the value, or its error's text.
pub uninterp spec fn json_body(bytes: Seq<u8>) -> Result<Tree, Seq<char>>;

/// `serde_json::from_slice` on a body: the value, or the text of its error. It reads
/// a value from UTF-8 only: strings are checked to be, and all else is ASCII.
#[verifier::external_body]
pub(crate) fn read_body(bytes: &[u8]) -> (r: Result<serde_json::Value, String>)
    ensures
        match r {
            Ok(v) => json_body(bytes@) == Ok::<Tree, Seq<char>>(tree(v)) && valid_utf8(bytes@),
            Err(e) => json_body(bytes@) == Err::<Tree, Seq<char>>(e@),
        },
{
    serde_json::from_slice(bytes).map_err(|e| e.to_string())
}

// ---------------------------------------------------------------------------
// Building
// ---------------------------------------------------------------------------

/// The value null.
pub fn null() -> (v: serde_json::Value)
    ensures
        tree(v) == Tree::Null,
{
    make(Parts::Null)
}

/// A boolean.
pub fn boolean(b: bool) -> (v: serde_json::Value)
    ensures
        tree(v) == Tree::Bool(b),
{
    make(Parts::Bool(b))
}

/// An integer.
pub fn integer(i: i64) -> (v: serde_json::Value)
    ensures
        tree(v) == Tree::Int(i as int),
{
    make(Parts::Int(i))
}

/// A natural number.
pub fn natural(u: u64) -> (v: serde_json::Value)
    ensures
        tree(v) == Tree::Int(u as int),
{
    make(Parts::Uint(u))
}

/// A string.
pub fn string(s: &str) -> (v: serde_json::Value)
    ensures
        tree(v) == Tree::Str(s@),
{
    make(Parts::Str(s.to_owned()))
}

/// An optional string, null where there is none.
pub open spec fn opt_str(s: Option<&str>) -> Tree {
    match s {
        Some(x) => Tree::Str(x@),
        None => Tree::Null,
    }
}

/// An optional string, null where there is none.
pub fn string_or_null(s: Option<&str>) -> (v: serde_json::Value)
    ensures
        tree(v) == opt_str(s),
{
    match s {
        Some(x) => string(x),
        None => null(),
    }
}

/// An array.
pub fn array(items: Vec<serde_json::Value>) -> (v: serde_json::Value)
    ensures
        tree(v) == Tree::Arr(trees(items@)),
{
    make(Parts::Arr(items))
}

/// An array of one value.
pub fn array1(item: serde_json::Value) -> (v: serde_json::Value)
    ensures
        tree(v) == Tree::Arr(seq![tree(item)]),
{
    let mut items: Vec<serde_json::Value> = Vec::new();
    items.push(item);
    proof {
        assert(trees(items@) =~= seq![tree(item)]);
    }
    array(items)
}

/// An object under construction.
pub struct Object {
    members: Vec<(String, serde_json::Value)>,
}

impl View for Object {
    type V = Map<Seq<char>, Tree>;

    closed spec fn view(&self) -> Map<Seq<char>, Tree> {
        members_map(self.members@)
    }
}

proof fn lemma_member_replaced(
    m: Seq<(String, serde_json::Value)>,
    i: int,
    x: (String, serde_json::Value),
)
    requires
        distinct_keys(m),
        0 <= i < m.len(),
        m[i].0@ == x.0@,
    ensures
        members_map(m.update(i, x)) == members_map(m).insert(x.0@, tree(x.1)),
    decreases m.len(),
{
    let front = m.drop_last();
    let last = m.last();
    if i == m.len() - 1 {
        assert(m.update(i, x).drop_last() =~= front);
    } else {
        lemma_member_replaced(front, i, x);
        assert(m.update(i, x).drop_last() =~= front.update(i, x));
        assert(m[i].0@ != m[m.len() - 1].0@);
    }
    assert(members_map(m.update(i, x)) =~= members_map(m).insert(x.0@, tree(x.1)));
}

impl Object {
    /// No two members have the same key.
    pub closed spec fn wf(&self) -> bool {
        distinct_keys(self.members@)
    }

    /// No member.
    pub fn new() -> (r: Object)
        ensures
            r.wf(),
            r@ == Map::<Seq<char>, Tree>::empty(),
    {
        Object { members: Vec::new() }
    }

    /// Adds a member, over any earlier one of the same key.
    pub fn put(&mut self, key: &str, v: serde_json::Value)
        requires
            old(self).wf(),
        ensures
            final(self).wf(),
            final(self)@ == old(self)@.insert(key@, tree(v)),
    {
        let ghost before = self.members@;
        let mut i: usize = 0;
        while i < self.members.len()
            invariant
                i <= self.members@.len(),
                *self == *old(self),
                distinct_keys(self.members@),
                before == self.members@,
                forall|j: int| 0 <= j < i ==> (#[trigger] self.members@[j]).0@ != key@,
            decreases self.members.len() - i,
        {
            if same(self.members[i].0.as_str(), key) {
                let x = (key.to_owned(), v);
                proof {
                    lemma_member_replaced(before, i as int, x);
                }
                self.members.set(i, x);
                return ;
            }
            i += 1;
        }
        self.members.push((key.to_owned(), v));
        proof {
            assert(self.members@.drop_last() =~= before);
        }
    }

    /// The object.
    pub fn build(self) -> (v: serde_json::Value)
        requires
            self.wf(),
        ensures
            tree(v) == Tree::Obj(self@),
    {
        make(Parts::Obj(self.members))
    }
}

// ---------------------------------------------------------------------------
// Reading
// ---------------------------------------------------------------------------

/// The member of a key.
pub open spec fn member_of(t: Tree, key: Seq<char>) -> Option<Tree> {
    if t is Obj && t->Obj_0.contains_key(key) {
        Some(t->Obj_0[key])
    } else {
        None
    }
}

/// The text of a string member, none where the member is absent or no string.
pub open spec fn str_member(t: Tree, key: Seq<char>) -> Option<Seq<char>> {
    match member_of(t, key) {
        Some(Tree::Str(s)) => Some(s),
        _ => None,
    }
}

/// The text of a string member.
pub fn get_str<'a>(v: &'a serde_json::Value, key: &str) -> (r: Option<&'a str>)
    ensures
        match r {
            Some(s) => str_member(tree(*v), key@) == Some(s@),
            None => str_member(tree(*v), key@) is None,
        },
{
    match member(v, key) {
        Some(m) => m.as_str(),
        None => None,
    }
}

/// A boolean member, none where the member is absent or no boolean.
pub open spec fn bool_member(t: Tree, key: Seq<char>) -> Option<bool> {
    match member_of(t, key) {
        Some(Tree::Bool(b)) => Some(b),
        _ => None,
    }
}

/// A boolean member.
pub fn get_bool(v: &serde_json::Value, key: &str) -> (r: Option<bool>)
    ensures
        r == bool_member(tree(*v), key@),
{
    match member(v, key) {
        Some(m) => m.as_bool(),
        None => None,
    }
}

/// The text of a value.
pub fn to_text(v: &serde_json::Value) -> (r: String)
    ensures
        r@ == json_text(tree(*v)),
{
    print(v)
}

/// The value a text holds; `None` where the text is no JSON.
pub fn from_text(text: &str) -> (r: Option<serde_json::Value>)
    ensures
        match r {
            Some(v) => json_value(text@) == Some(tree(v)),
            None => json_value(text@) is None,
        },
{
    read(text)
}

} // verus!
