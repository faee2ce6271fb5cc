//! JSON values.
//!
//! `Json` is a JSON document held as plain data.  Its model is `JsonView`,
//! in which an object is a map from member names to values.  Reading JSON
//! text and writing it is left to `serde_json`.

use vstd::prelude::*;

use crate::text::text_eq;

verus! {

/// `serde_json::Value`, a document as `serde_json` reads and writes it.
#[verifier::external_type_specification]
#[verifier::external_body]
pub struct ExSerdeValue(serde_json::Value);

/// `serde_json::Number`, a number as `serde_json` holds it.
#[verifier::external_type_specification]
#[verifier::external_body]
pub struct ExSerdeNumber(serde_json::Number);

/// A JSON number that is no 64-bit integer.  It is only ever read from a
/// document and written back: nothing computes with it.
#[derive(Debug)]
pub struct Float(serde_json::Number);

/// The model of a JSON value.
#[verifier::ext_equal]
pub enum JsonView {
    Null,
    Bool(bool),
    Int(int),
    Float(Float),
    Str(Seq<char>),
    Array(Seq<JsonView>),
    Object(Map<Seq<char>, JsonView>),
}

/// A JSON value.
///
/// Of members of one object with the same name, the last one counts.
#[derive(Debug)]
pub enum Json {
    Null,
    Bool(bool),
    Unsigned(u64),
    Signed(i64),
    Float(Float),
    Text(String),
    Array(Vec<Json>),
    Object(Vec<(String, Json)>),
}

/// The members of an object, as a map.
pub open spec fn members(s: Seq<(String, Json)>) -> Map<Seq<char>, JsonView>
    decreases s,
{
    if s.len() == 0 {
        Map::empty()
    } else {
        members(s.drop_last()).insert(s.last().0@, s.last().1.view())
    }
}

/// The models of the elements of an array.
pub open spec fn elements(s: Seq<Json>) -> Seq<JsonView>
    decreases s,
{
    Seq::new(
        s.len(),
        |i: int|
            if 0 <= i < s.len() {
                s[i].view()
            } else {
                JsonView::Null
            },
    )
}

impl View for Json {
    type V = JsonView;

    open spec fn view(&self) -> JsonView
        decreases self,
    {
        match self {
            Json::Null => JsonView::Null,
            Json::Bool(b) => JsonView::Bool(*b),
            Json::Unsigned(n) => JsonView::Int(*n as int),
            Json::Signed(n) => JsonView::Int(*n as int),
            Json::Float(f) => JsonView::Float(*f),
            Json::Text(s) => JsonView::Str(s@),
            Json::Array(a) => JsonView::Array(elements(a@)),
            Json::Object(m) => JsonView::Object(members(m@)),
        }
    }
}

// ---------------------------------------------------------------------
// Reading the model

impl JsonView {
    /// The member of that name, of an object that has one.
    pub open spec fn member(self, key: Seq<char>) -> Option<JsonView> {
        match self {
            JsonView::Object(m) => if m.contains_key(key) {
                Some(m[key])
            } else {
                None
            },
            _ => None,
        }
    }

    /// The element at position `i`, of an array that has one.
    pub open spec fn element(self, i: int) -> Option<JsonView> {
        match self {
            JsonView::Array(a) => if 0 <= i < a.len() {
                Some(a[i])
            } else {
                None
            },
            _ => None,
        }
    }

    /// The characters of a string.
    pub open spec fn text(self) -> Option<Seq<char>> {
        match self {
            JsonView::Str(s) => Some(s),
            _ => None,
        }
    }

    /// The truth value of a boolean.
    pub open spec fn truth(self) -> Option<bool> {
        match self {
            JsonView::Bool(b) => Some(b),
            _ => None,
        }
    }

    /// The number, where it is an unsigned 64-bit integer.
    pub open spec fn unsigned(self) -> Option<u64> {
        match self {
            JsonView::Int(n) => if 0 <= n <= u64::MAX {
                Some(n as u64)
            } else {
                None
            },
            _ => None,
        }
    }

    /// The elements of an array.
    pub open spec fn array(self) -> Option<Seq<JsonView>> {
        match self {
            JsonView::Array(a) => Some(a),
            _ => None,
        }
    }

    /// The object with that member set.
    pub open spec fn with(self, key: Seq<char>, value: JsonView) -> JsonView {
        match self {
            JsonView::Object(m) => JsonView::Object(m.insert(key, value)),
            _ => self,
        }
    }
}

/// Setting a member to what it is changes nothing.
pub proof fn lemma_with_same(v: JsonView, key: Seq<char>)
    ensures
        match v.member(key) {
            Some(x) => v.with(key, x) == v,
            None => true,
        },
{
    if let JsonView::Object(m) = v {
        if m.contains_key(key) {
            assert(m.insert(key, m[key]) =~= m);
        }
    }
}

/// The member of that name of a value that may be missing.
pub open spec fn member_of(v: Option<JsonView>, key: Seq<char>) -> Option<JsonView> {
    match v {
        Some(j) => j.member(key),
        None => None,
    }
}

/// The element at position `i` of a value that may be missing.
pub open spec fn element_of(v: Option<JsonView>, i: int) -> Option<JsonView> {
    match v {
        Some(j) => j.element(i),
        None => None,
    }
}

/// The characters of a string that may be missing.
pub open spec fn text_of(v: Option<JsonView>) -> Option<Seq<char>> {
    match v {
        Some(j) => j.text(),
        None => None,
    }
}

/// The truth value of a boolean that may be missing.
pub open spec fn truth_of(v: Option<JsonView>) -> Option<bool> {
    match v {
        Some(j) => j.truth(),
        None => None,
    }
}

/// The unsigned integer of a number that may be missing.
pub open spec fn unsigned_of(v: Option<JsonView>) -> Option<u64> {
    match v {
        Some(j) => j.unsigned(),
        None => None,
    }
}

/// The elements of an array that may be missing.
pub open spec fn array_of(v: Option<JsonView>) -> Option<Seq<JsonView>> {
    match v {
        Some(j) => j.array(),
        None => None,
    }
}

/// The model of a value that may be missing.
pub open spec fn json_view(v: Option<Json>) -> Option<JsonView> {
    match v {
        Some(j) => Some(j@),
        None => None,
    }
}

/// The model of a borrowed value that may be missing.
pub open spec fn json_ref_view(v: Option<&Json>) -> Option<JsonView> {
    match v {
        Some(j) => Some(j@),
        None => None,
    }
}

/// The characters of a string that may be missing.
pub open spec fn opt_text(v: Option<String>) -> Option<Seq<char>> {
    match v {
        Some(s) => Some(s@),
        None => None,
    }
}

// ---------------------------------------------------------------------
// Members of an object

/// The last entry comes on top of the entries before it.
proof fn lemma_members(s: Seq<(String, Json)>)
    requires
        s.len() > 0,
    ensures
        members(s) == members(s.drop_last()).insert(s.last().0@, s.last().1@),
{
}

/// A name that no entry has is no member.
proof fn lemma_member_absent(s: Seq<(String, Json)>, key: Seq<char>)
    requires
        forall|j: int| 0 <= j < s.len() ==> (#[trigger] s[j]).0@ != key,
    ensures
        !members(s).contains_key(key),
    decreases s.len(),
{
    if s.len() > 0 {
        lemma_member_absent(s.drop_last(), key);
        lemma_members(s);
    }
}

/// The last entry of a name gives the member.
proof fn lemma_member_last(s: Seq<(String, Json)>, i: int)
    requires
        0 <= i < s.len(),
        forall|j: int| i < j < s.len() ==> (#[trigger] s[j]).0@ != s[i].0@,
    ensures
        members(s).contains_key(s[i].0@),
        members(s)[s[i].0@] == s[i].1@,
    decreases s.len(),
{
    lemma_members(s);
    if i < s.len() - 1 {
        lemma_member_last(s.drop_last(), i);
        assert(s[s.len() - 1].0@ != s[i].0@);
    }
}

/// Changing the last entry of a name sets the member.
proof fn lemma_member_update(s: Seq<(String, Json)>, i: int, e: (String, Json))
    requires
        0 <= i < s.len(),
        e.0@ == s[i].0@,
        forall|j: int| i < j < s.len() ==> (#[trigger] s[j]).0@ != s[i].0@,
    ensures
        members(s.update(i, e)) == members(s).insert(e.0@, e.1@),
    decreases s.len(),
{
    let t = s.update(i, e);
    lemma_members(s);
    lemma_members(t);
    if i < s.len() - 1 {
        lemma_member_update(s.drop_last(), i, e);
        assert(t.drop_last() =~= s.drop_last().update(i, e));
        assert(s[s.len() - 1].0@ != s[i].0@);
        assert(members(t) =~= members(s).insert(e.0@, e.1@));
    } else {
        assert(t.drop_last() =~= s.drop_last());
        assert(members(t) =~= members(s).insert(e.0@, e.1@));
    }
}

/// The position of the last entry of that name.
fn last_entry(m: &Vec<(String, Json)>, key: &str) -> (r: Option<usize>)
    ensures
        match r {
            Some(i) => i < m@.len() && m@[i as int].0@ == key@ && forall|j: int|
                i < j < m@.len() ==> (#[trigger] m@[j]).0@ != key@,
            None => forall|j: int| 0 <= j < m@.len() ==> (#[trigger] m@[j]).0@ != key@,
        },
{
    let mut i: usize = m.len();
    while i > 0
        invariant
            i <= m@.len(),
            forall|j: int| i <= j < m@.len() ==> (#[trigger] m@[j]).0@ != key@,
        decreases i,
    {
        if text_eq(m[i - 1].0.as_str(), key) {
            return Some(i - 1);
        }
        i -= 1;
    }
    None
}

/// The value of the last entry of its name, to be changed.
fn entry_mut(m: &mut Vec<(String, Json)>, i: usize) -> (r: &mut Json)
    requires
        i < old(m)@.len(),
        forall|j: int| i < j < old(m)@.len() ==> (#[trigger] old(m)@[j]).0@ != old(m)@[i as int].0@,
    ensures
        *r == old(m)@[i as int].1,
        members(final(m)@) == members(old(m)@).insert(old(m)@[i as int].0@, (*final(r))@),
{
    proof {
        let before = m@;
        assert forall|e: (String, Json)| e.0@ == before[i as int].0@ implies #[trigger] members(
            before.update(i as int, e),
        ) == members(before).insert(e.0@, e.1@) by {
            lemma_member_update(before, i as int, e);
        }
    }
    &mut m[i].1
}

impl Json {
    /// The member of that name, of an object that has one.
    pub fn get(&self, key: &str) -> (r: Option<&Json>)
        ensures
            json_ref_view(r) == self@.member(key@),
    {
        match self {
            Json::Object(m) => {
                match last_entry(m, key) {
                    Some(i) => {
                        proof {
                            lemma_member_last(m@, i as int);
                        }
                        Some(&m[i].1)
                    },
                    None => {
                        proof {
                            lemma_member_absent(m@, key@);
                        }
                        None
                    },
                }
            },
            _ => None,
        }
    }

    /// The member of that name, of an object that has one, to be changed.
    pub fn get_mut(&mut self, key: &str) -> (r: Option<&mut Json>)
        ensures
            match old(self)@.member(key@) {
                Some(v) => r is Some && (*r->0)@ == v && final(self)@ == old(self)@.with(
                    key@,
                    (*final(r->0))@,
                ),
                None => r is None && final(self)@ == old(self)@,
            },
    {
        match self {
            Json::Object(m) => {
                match last_entry(m, key) {
                    Some(i) => {
                        proof {
                            lemma_member_last(m@, i as int);
                        }
                        Some(entry_mut(m, i))
                    },
                    None => {
                        proof {
                            lemma_member_absent(m@, key@);
                        }
                        None
                    },
                }
            },
            _ => None,
        }
    }

    /// Sets a member of an object; anything else is left as it is.
    pub fn set(&mut self, key: &str, value: Json)
        ensures
            final(self)@ == old(self)@.with(key@, value@),
    {
        match self {
            Json::Object(m) => {
                let ghost before = m@;
                m.push((key.to_owned(), value));
                assert(m@.drop_last() =~= before);
            },
            _ => {},
        }
    }

    /// The element at position `i`, of an array that has one.
    pub fn at(&self, i: usize) -> (r: Option<&Json>)
        ensures
            json_ref_view(r) == self@.element(i as int),
    {
        match self {
            Json::Array(a) => if i < a.len() {
                Some(&a[i])
            } else {
                None
            },
            _ => None,
        }
    }

    /// The string, of a string.
    pub fn as_str(&self) -> (r: Option<&str>)
        ensures
            match self@.text() {
                Some(s) => r is Some && r->0@ == s,
                None => r is None,
            },
    {
        match self {
            Json::Text(s) => Some(s.as_str()),
            _ => None,
        }
    }

    /// The truth value, of a boolean.
    pub fn as_bool(&self) -> (r: Option<bool>)
        ensures
            r == self@.truth(),
    {
        match self {
            Json::Bool(b) => Some(*b),
            _ => None,
        }
    }

    /// The number, where it is an unsigned 64-bit integer.
    pub fn as_u64(&self) -> (r: Option<u64>)
        ensures
            r == self@.unsigned(),
    {
        match self {
            Json::Unsigned(n) => Some(*n),
            Json::Signed(n) => if *n >= 0 {
                Some(*n as u64)
            } else {
                None
            },
            _ => None,
        }
    }

    /// The elements, of an array.
    pub fn as_array(&self) -> (r: Option<&Vec<Json>>)
        ensures
            match self@.array() {
                Some(a) => r is Some && elements(r->0@) == a,
                None => r is None,
            },
    {
        match self {
            Json::Array(a) => Some(a),
            _ => None,
        }
    }

    /// The elements, of an array, to be changed.
    pub fn as_array_mut(&mut self) -> (r: Option<&mut Vec<Json>>)
        ensures
            match old(self)@.array() {
                Some(a) => r is Some && elements((*r->0)@) == a && final(self)@
                    == JsonView::Array(elements((*final(r->0))@)),
                None => r is None && final(self)@ == old(self)@,
            },
    {
        match self {
            Json::Array(a) => Some(a),
            _ => None,
        }
    }

    /// An object without members.
    pub fn object() -> (r: Json)
        ensures
            r@ == JsonView::Object(Map::empty()),
    {
        Json::Object(Vec::new())
    }

    /// A string.
    pub fn str(s: &str) -> (r: Json)
        ensures
            r@ == JsonView::Str(s@),
    {
        Json::Text(s.to_owned())
    }
}

/// `serde_json::Number::clone` copies a number.
#[verifier::external_body]
fn copy_float(f: &Float) -> (r: Float)
    ensures
        r == *f,
{
    Float(f.0.clone())
}

impl Clone for Json {
    /// A copy of the value.
    fn clone(&self) -> (r: Json)
        ensures
            r@ == self@,
        decreases self,
    {
        match self {
            Json::Null => Json::Null,
            Json::Bool(b) => Json::Bool(*b),
            Json::Unsigned(n) => Json::Unsigned(*n),
            Json::Signed(n) => Json::Signed(*n),
            Json::Float(f) => Json::Float(copy_float(f)),
            Json::Text(s) => Json::Text(s.clone()),
            Json::Array(a) => {
                let mut out: Vec<Json> = Vec::new();
                let mut i: usize = 0;
                while i < a.len()
                    invariant
                        i <= a@.len(),
                        out@.len() == i,
                        self == Json::Array(*a),
                        forall|k: int| 0 <= k < i ==> (#[trigger] out@[k])@ == a@[k]@,
                    decreases a.len() - i,
                {
                    assert(decreases_to!(self => self->Array_0@[i as int]));
                    out.push(a[i].clone());
                    i += 1;
                }
                assert(elements(out@) =~= elements(a@));
                Json::Array(out)
            },
            Json::Object(m) => {
                let mut out: Vec<(String, Json)> = Vec::new();
                let mut i: usize = 0;
                assert(m@.take(0) =~= out@);
                while i < m.len()
                    invariant
                        i <= m@.len(),
                        self == Json::Object(*m),
                        members(out@) == members(m@.take(i as int)),
                    decreases m.len() - i,
                {
                    let ghost before = out@;
                    assert(decreases_to!(self => self->Object_0@[i as int].1));
                    out.push((m[i].0.clone(), m[i].1.clone()));
                    assert(out@.drop_last() =~= before);
                    assert(m@.take(i + 1).drop_last() =~= m@.take(i as int));
                    i += 1;
                }
                assert(m@.take(m@.len() as int) =~= m@);
                Json::Object(out)
            },
        }
    }
}

// ---------------------------------------------------------------------
// JSON text

/// What a `serde_json::Value` holds.
pub uninterp spec fn content(j: serde_json::Value) -> JsonView;

/// The value that `serde_json::from_slice` reads from bytes, where they are
/// JSON.
pub uninterp spec fn json_of_bytes(bytes: Seq<u8>) -> Option<JsonView>;

/// The value that `serde_json::from_str` reads from a text, where it is JSON.
pub uninterp spec fn json_of_text(text: Seq<char>) -> Option<JsonView>;

/// The bytes that `serde_json::to_vec` writes for a value.
pub uninterp spec fn bytes_of_json(v: JsonView) -> Option<Seq<u8>>;

/// The text that `serde_json::to_string` writes for a value.
pub uninterp spec fn text_of_json(v: JsonView) -> Option<Seq<char>>;

/// `serde_json::from_slice`, reading a document of any shape: which bytes it
/// takes, and what it reads, depends on the bytes alone.
#[verifier::external_body]
fn serde_from_slice(bytes: &[u8]) -> (r: Option<serde_json::Value>)
    ensures
        match r {
            Some(j) => json_of_bytes(bytes@) == Some(content(j)),
            None => json_of_bytes(bytes@) is None,
        },
{
    serde_json::from_slice::<serde_json::Value>(bytes).ok()
}

/// `serde_json::from_str`, reading a document of any shape: which texts it
/// takes, and what it reads, depends on the text alone.
#[verifier::external_body]
fn serde_from_str(text: &str) -> (r: Option<serde_json::Value>)
    ensures
        match r {
            Some(j) => json_of_text(text@) == Some(content(j)),
            None => json_of_text(text@) is None,
        },
{
    serde_json::from_str::<serde_json::Value>(text).ok()
}

/// `serde_json::to_vec`: what it writes depends on what the document holds
/// alone.
#[verifier::external_body]
fn serde_to_vec(j: &serde_json::Value) -> (r: Option<Vec<u8>>)
    ensures
        match r {
            Some(b) => bytes_of_json(content(*j)) == Some(b@),
            None => bytes_of_json(content(*j)) is None,
        },
{
    serde_json::to_vec(j).ok()
}

/// `serde_json::to_string`: what it writes depends on what the document holds
/// alone.
#[verifier::external_body]
fn serde_to_string(j: &serde_json::Value) -> (r: Option<String>)
    ensures
        match r {
            Some(t) => text_of_json(content(*j)) == Some(t@),
            None => text_of_json(content(*j)) is None,
        },
{
    serde_json::to_string(j).ok()
}

/// A document, taken apart: a value with the documents right under it.
enum Parts<'a> {
    Null,
    Bool(bool),
    Unsigned(u64),
    Signed(i64),
    Float(Float),
    Text(String),
    Array(&'a Vec<serde_json::Value>),
    Object(Vec<(String, &'a serde_json::Value)>),
}

/// What to put a document together from.
enum Pieces {
    Null,
    Bool(bool),
    Unsigned(u64),
    Signed(i64),
    Float(Float),
    Text(String),
    Array(Vec<serde_json::Value>),
    Object(Vec<(String, serde_json::Value)>),
}

/// What documents hold, in order.
spec fn contents(s: Seq<serde_json::Value>) -> Seq<JsonView> {
    Seq::new(s.len(), |i: int| content(s[i]))
}

/// What named documents hold, in order.
spec fn document_entries(s: Seq<(String, serde_json::Value)>) -> Seq<(Seq<char>, JsonView)> {
    Seq::new(s.len(), |i: int| (s[i].0@, content(s[i].1)))
}

/// What named values make up; of one name the last counts.
spec fn by_name(s: Seq<(Seq<char>, JsonView)>) -> Map<Seq<char>, JsonView>
    decreases s.len(),
{
    if s.len() == 0 {
        Map::empty()
    } else {
        by_name(s.drop_last()).insert(s.last().0, s.last().1)
    }
}

/// No name occurs twice.
spec fn names_distinct(s: Seq<(Seq<char>, JsonView)>) -> bool {
    forall|i: int, j: int| 0 <= i < j < s.len() ==> (#[trigger] s[i]).0 != (#[trigger] s[j]).0
}

impl<'a> Parts<'a> {
    /// The members of an object, in whatever order.
    spec fn entries(self) -> Seq<(Seq<char>, JsonView)> {
        match self {
            Parts::Object(m) => Seq::new(m@.len(), |i: int| (m@[i].0@, content(*m@[i].1))),
            _ => Seq::empty(),
        }
    }

    /// What the document holds that was taken apart.
    spec fn whole(self) -> JsonView {
        match self {
            Parts::Null => JsonView::Null,
            Parts::Bool(b) => JsonView::Bool(b),
            Parts::Unsigned(n) => JsonView::Int(n as int),
            Parts::Signed(n) => JsonView::Int(n as int),
            Parts::Float(f) => JsonView::Float(f),
            Parts::Text(s) => JsonView::Str(s@),
            Parts::Array(a) => JsonView::Array(contents(a@)),
            Parts::Object(_) => JsonView::Object(by_name(self.entries())),
        }
    }
}

impl Pieces {
    /// The members of an object.
    spec fn entries(self) -> Seq<(Seq<char>, JsonView)> {
        match self {
            Pieces::Object(m) => document_entries(m@),
            _ => Seq::empty(),
        }
    }

    /// What the document holds that is put together.
    spec fn whole(self) -> JsonView {
        match self {
            Pieces::Null => JsonView::Null,
            Pieces::Bool(b) => JsonView::Bool(b),
            Pieces::Unsigned(n) => JsonView::Int(n as int),
            Pieces::Signed(n) => JsonView::Int(n as int),
            Pieces::Float(f) => JsonView::Float(f),
            Pieces::Text(s) => JsonView::Str(s@),
            Pieces::Array(a) => JsonView::Array(contents(a@)),
            Pieces::Object(_) => JsonView::Object(by_name(self.entries())),
        }
    }
}

/// The variants of `serde_json::Value`, told apart: a document holds what its
/// parts make up.  A `serde_json::Number` is a 64-bit integer or else a float;
/// a `serde_json::Map` has every name once.
#[verifier::external_body]
fn take_apart<'a>(j: &'a serde_json::Value) -> (r: Parts<'a>)
    ensures
        r.whole() == content(*j),
        names_distinct(r.entries()),
{
    match j {
        serde_json::Value::Null => Parts::Null,
        serde_json::Value::Bool(b) => Parts::Bool(*b),
        serde_json::Value::Number(n) => match (n.as_u64(), n.as_i64()) {
            (Some(u), _) => Parts::Unsigned(u),
            (None, Some(i)) => Parts::Signed(i),
            (None, None) => Parts::Float(Float(n.clone())),
        },
        serde_json::Value::String(s) => Parts::Text(s.clone()),
        serde_json::Value::Array(a) => Parts::Array(a),
        serde_json::Value::Object(m) => Parts::Object(m.iter().map(|(k, v)| (k.clone(), v)).collect()),
    }
}

/// The variants of `serde_json::Value`, put together: a document holds what its
/// pieces make up.  A `serde_json::Map` that is collected from entries has them
/// all, as long as no two have the same name.
#[verifier::external_body]
fn put_together(p: Pieces) -> (r: serde_json::Value)
    requires
        names_distinct(p.entries()),
    ensures
        content(r) == p.whole(),
{
    match p {
        Pieces::Null => serde_json::Value::Null,
        Pieces::Bool(b) => serde_json::Value::Bool(b),
        Pieces::Unsigned(n) => serde_json::Value::from(n),
        Pieces::Signed(n) => serde_json::Value::from(n),
        Pieces::Float(f) => serde_json::Value::Number(f.0),
        Pieces::Text(s) => serde_json::Value::String(s),
        Pieces::Array(a) => serde_json::Value::Array(a),
        Pieces::Object(m) => serde_json::Value::Object(m.into_iter().collect()),
    }
}

/// A named value among others of other names is the one under its name.
proof fn lemma_by_name(s: Seq<(Seq<char>, JsonView)>, i: int)
    requires
        names_distinct(s),
        0 <= i < s.len(),
    ensures
        by_name(s).contains_key(s[i].0),
        by_name(s)[s[i].0] == s[i].1,
        by_name(s).dom().finite(),
    decreases s.len(),
{
    lemma_by_name_finite(s);
    if i < s.len() - 1 {
        lemma_by_name(s.drop_last(), i);
        assert(s[s.len() - 1].0 != s[i].0);
    }
}

/// Changing the value of a name sets it.
proof fn lemma_by_name_update(s: Seq<(Seq<char>, JsonView)>, i: int, value: JsonView)
    requires
        names_distinct(s),
        0 <= i < s.len(),
    ensures
        names_distinct(s.update(i, (s[i].0, value))),
        by_name(s.update(i, (s[i].0, value))) == by_name(s).insert(s[i].0, value),
    decreases s.len(),
{
    let t = s.update(i, (s[i].0, value));
    if i < s.len() - 1 {
        lemma_by_name_update(s.drop_last(), i, value);
        assert(t.drop_last() =~= s.drop_last().update(i, (s[i].0, value)));
        assert(s[s.len() - 1].0 != s[i].0);
        assert(by_name(t) =~= by_name(s).insert(s[i].0, value));
    } else {
        assert(t.drop_last() =~= s.drop_last());
        assert(by_name(t) =~= by_name(s).insert(s[i].0, value));
    }
}

/// Named values are finitely many.
proof fn lemma_by_name_finite(s: Seq<(Seq<char>, JsonView)>)
    ensures
        by_name(s).dom().finite(),
    decreases s.len(),
{
    if s.len() > 0 {
        lemma_by_name_finite(s.drop_last());
    }
}

/// The value that a document holds.
fn from_serde(j: &serde_json::Value) -> (r: Json)
    ensures
        r@ == content(*j),
    decreases content(*j),
{
    let parts = take_apart(j);
    let ghost all = parts.entries();
    match parts {
        Parts::Null => Json::Null,
        Parts::Bool(b) => Json::Bool(b),
        Parts::Unsigned(n) => Json::Unsigned(n),
        Parts::Signed(n) => Json::Signed(n),
        Parts::Float(f) => Json::Float(f),
        Parts::Text(s) => Json::Text(s),
        Parts::Array(a) => {
            let mut out: Vec<Json> = Vec::new();
            let mut i: usize = 0;
            while i < a.len()
                invariant
                    i <= a@.len(),
                    out@.len() == i,
                    content(*j) == JsonView::Array(contents(a@)),
                    forall|k: int| 0 <= k < i ==> (#[trigger] out@[k])@ == content(a@[k]),
                decreases a.len() - i,
            {
                assert(decreases_to!(content(*j) => content(*j)->Array_0[i as int]));
                assert(contents(a@)[i as int] == content(a@[i as int]));
                out.push(from_serde(&a[i]));
                i += 1;
            }
            assert(elements(out@) =~= contents(a@));
            Json::Array(out)
        },
        Parts::Object(m) => {
            let mut out: Vec<(String, Json)> = Vec::new();
            let mut i: usize = 0;
            assert(all.take(0) =~= Seq::<(Seq<char>, JsonView)>::empty());
            while i < m.len()
                invariant
                    i <= m@.len(),
                    all.len() == m@.len(),
                    forall|k: int|
                        0 <= k < m@.len() ==> #[trigger] all[k] == (m@[k].0@, content(*m@[k].1)),
                    content(*j) == JsonView::Object(by_name(all)),
                    names_distinct(all),
                    members(out@) == by_name(all.take(i as int)),
                decreases m.len() - i,
            {
                let ghost before = out@;
                proof {
                    lemma_by_name(all, i as int);
                    assert(decreases_to!(content(*j) => content(*j)->Object_0[all[i as int].0]));
                }
                out.push((m[i].0.clone(), from_serde(m[i].1)));
                assert(out@.drop_last() =~= before);
                assert(all.take(i + 1).drop_last() =~= all.take(i as int));
                i += 1;
            }
            assert(all.take(all.len() as int) =~= all);
            Json::Object(out)
        },
    }
}

/// Sets the value of a name: in its place if the name is there, behind the
/// others if it is not.
fn set_named(out: &mut Vec<(String, serde_json::Value)>, name: &String, value: serde_json::Value)
    requires
        names_distinct(document_entries(old(out)@)),
    ensures
        names_distinct(document_entries(final(out)@)),
        by_name(document_entries(final(out)@)) == by_name(document_entries(old(out)@)).insert(
            name@,
            content(value),
        ),
{
    let ghost before = document_entries(out@);
    let mut i: usize = 0;
    while i < out.len()
        invariant
            i <= out@.len(),
            *out == *old(out),
            before == document_entries(out@),
            names_distinct(before),
            forall|k: int| 0 <= k < i ==> (#[trigger] before[k]).0 != name@,
        decreases out.len() - i,
    {
        if text_eq(out[i].0.as_str(), name.as_str()) {
            let ghost v = content(value);
            out.set(i, (name.clone(), value));
            proof {
                assert(before[i as int].0 == name@);
                lemma_by_name_update(before, i as int, v);
                assert(document_entries(out@) =~= before.update(i as int, (name@, v)));
            }
            return ;
        }
        assert(before[i as int].0 != name@);
        i += 1;
    }
    let ghost v = content(value);
    out.push((name.clone(), value));
    assert(document_entries(out@) =~= before.push((name@, v)));
    assert(before.push((name@, v)).drop_last() =~= before);
}

/// A document that holds the value.
fn to_serde(v: &Json) -> (r: serde_json::Value)
    ensures
        content(r) == v@,
    decreases v,
{
    match v {
        Json::Null => put_together(Pieces::Null),
        Json::Bool(b) => put_together(Pieces::Bool(*b)),
        Json::Unsigned(n) => put_together(Pieces::Unsigned(*n)),
        Json::Signed(n) => put_together(Pieces::Signed(*n)),
        Json::Float(f) => put_together(Pieces::Float(copy_float(f))),
        Json::Text(s) => put_together(Pieces::Text(s.clone())),
        Json::Array(a) => {
            let mut out: Vec<serde_json::Value> = Vec::new();
            let mut i: usize = 0;
            while i < a.len()
                invariant
                    i <= a@.len(),
                    out@.len() == i,
                    v == Json::Array(*a),
                    forall|k: int| 0 <= k < i ==> content(#[trigger] out@[k]) == a@[k]@,
                decreases a.len() - i,
            {
                assert(decreases_to!(v => v->Array_0@[i as int]));
                out.push(to_serde(&a[i]));
                i += 1;
            }
            assert(contents(out@) =~= elements(a@));
            put_together(Pieces::Array(out))
        },
        Json::Object(m) => {
            let mut out: Vec<(String, serde_json::Value)> = Vec::new();
            let mut i: usize = 0;
            assert(m@.take(0) =~= Seq::<(String, Json)>::empty());
            assert(document_entries(out@) =~= Seq::<(Seq<char>, JsonView)>::empty());
            while i < m.len()
                invariant
                    i <= m@.len(),
                    v == Json::Object(*m),
                    names_distinct(document_entries(out@)),
                    by_name(document_entries(out@)) == members(m@.take(i as int)),
                decreases m.len() - i,
            {
                assert(decreases_to!(v => v->Object_0@[i as int].1));
                set_named(&mut out, &m[i].0, to_serde(&m[i].1));
                proof {
                    assert(m@.take(i + 1).drop_last() =~= m@.take(i as int));
                    lemma_members(m@.take(i + 1));
                }
                i += 1;
            }
            assert(m@.take(m@.len() as int) =~= m@);
            put_together(Pieces::Object(out))
        },
    }
}

impl Json {
    /// Reads a JSON document.
    pub fn from_slice(bytes: &[u8]) -> (r: Option<Json>)
        ensures
            json_view(r) == json_of_bytes(bytes@),
    {
        match serde_from_slice(bytes) {
            Some(j) => Some(from_serde(&j)),
            None => None,
        }
    }

    /// Reads a JSON document.
    pub fn parse(text: &str) -> (r: Option<Json>)
        ensures
            json_view(r) == json_of_text(text@),
    {
        match serde_from_str(text) {
            Some(j) => Some(from_serde(&j)),
            None => None,
        }
    }

    /// Writes a JSON document.
    pub fn to_vec(&self) -> (r: Option<Vec<u8>>)
        ensures
            match r {
                Some(b) => bytes_of_json(self@) == Some(b@),
                None => bytes_of_json(self@) is None,
            },
    {
        serde_to_vec(&to_serde(self))
    }

    /// Writes a JSON document.
    pub fn to_text(&self) -> (r: Option<String>)
        ensures
            opt_text(r) == text_of_json(self@),
    {
        serde_to_string(&to_serde(self))
    }
}

/// What is read from a value: the members of an object and of nothing else, the
/// elements of an array and of nothing else, and the text, truth value or number
/// of a value of that kind alone.
pub proof fn law_readings(
    m: Map<Seq<char>, JsonView>,
    a: Seq<JsonView>,
    s: Seq<char>,
    b: bool,
    n: int,
    key: Seq<char>,
    i: int,
)
    ensures
        m.contains_key(key) ==> JsonView::Object(m).member(key) == Some(m[key]),
        !m.contains_key(key) ==> JsonView::Object(m).member(key) is None,
        JsonView::Array(a).member(key) is None,
        JsonView::Str(s).member(key) is None,
        0 <= i < a.len() ==> JsonView::Array(a).element(i) == Some(a[i]),
        i < 0 || a.len() <= i ==> JsonView::Array(a).element(i) is None,
        JsonView::Object(m).element(i) is None,
        JsonView::Str(s).text() == Some(s),
        JsonView::Bool(b).text() is None && JsonView::Int(n).text() is None,
        JsonView::Array(a).text() is None && JsonView::Object(m).text() is None,
        JsonView::Bool(b).truth() == Some(b),
        JsonView::Str(s).truth() is None && JsonView::Int(n).truth() is None,
        0 <= n <= u64::MAX ==> JsonView::Int(n).unsigned() == Some(n as u64),
        n < 0 || n > u64::MAX ==> JsonView::Int(n).unsigned() is None,
        JsonView::Str(s).unsigned() is None && JsonView::Bool(b).unsigned() is None,
        JsonView::Array(a).array() == Some(a),
        JsonView::Object(m).array() is None && JsonView::Str(s).array() is None,
{
}

/// Setting a member of an object sets that member and leaves all others.
pub proof fn law_member_set(v: JsonView, key: Seq<char>, value: JsonView, other: Seq<char>)
    requires
        v is Object,
        other != key,
    ensures
        v.with(key, value) is Object,
        v.with(key, value).member(key) == Some(value),
        v.with(key, value).member(other) == v.member(other),
{
}

/// The members of an object are those of its entries; of entries with one name the
/// last counts.  The elements of an array are its items, in order.
pub proof fn law_entries(s: Seq<(String, Json)>, name: String, value: Json, a: Seq<Json>, i: int)
    ensures
        members(Seq::empty()) == Map::<Seq<char>, JsonView>::empty(),
        members(s.push((name, value))) == members(s).insert(name@, value@),
        elements(a).len() == a.len(),
        0 <= i < a.len() ==> elements(a)[i] == a[i]@,
{
    let all = s.push((name, value));
    assert(all.drop_last() =~= s);
    lemma_members(all);
}

/// The model of a value is the value: what it is, and what it holds.
pub proof fn law_value_model(v: Json, o: Option<Json>, s: Option<String>)
    ensures
        v is Null ==> v@ == JsonView::Null,
        v is Bool ==> v@ == JsonView::Bool(v->Bool_0),
        v is Unsigned ==> v@ == JsonView::Int(v->Unsigned_0 as int),
        v is Signed ==> v@ == JsonView::Int(v->Signed_0 as int),
        v is Text ==> v@ == JsonView::Str(v->Text_0@),
        v is Array ==> v@ == JsonView::Array(elements(v->Array_0@)),
        v is Object ==> v@ == JsonView::Object(members(v->Object_0@)),
        o is Some ==> json_view(o) == Some(o->0@),
        o is None ==> json_view(o) is None,
        s is Some ==> opt_text(s) == Some(s->0@),
        s is None ==> opt_text(s) is None,
{
}

} // verus!
