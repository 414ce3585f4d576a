//! JSON values as plain data, read from text and written to it by `serde_json`.
use serde_json::Value;
use vstd::prelude::*;

use crate::order::before;

verus! {

/// A JSON value.
pub enum Json {
    Null,
    Bool(bool),
    /// A number that fits in 64 bits with sign.
    Int(i64),
    /// Any other number, in decimal.
    OtherNumber(String),
    Text(String),
    Array(Vec<Json>),
    /// The members with their names.
    Object(Vec<(String, Json)>),
}

/// What a JSON value is.
#[verifier::ext_equal]
pub enum JsonModel {
    Null,
    Bool(bool),
    Int(int),
    OtherNumber(Seq<char>),
    Text(Seq<char>),
    Array(Seq<JsonModel>),
    Object(Seq<Member>),
}

/// A member of an object.
#[verifier::ext_equal]
pub struct Member {
    pub name: Seq<char>,
    pub value: JsonModel,
}

impl View for Json {
    type V = JsonModel;

    open spec fn view(&self) -> JsonModel
        decreases self,
    {
        match self {
            Json::Null => JsonModel::Null,
            Json::Bool(b) => JsonModel::Bool(*b),
            Json::Int(n) => JsonModel::Int(*n as int),
            Json::OtherNumber(t) => JsonModel::OtherNumber(t@),
            Json::Text(t) => JsonModel::Text(t@),
            Json::Array(items) => JsonModel::Array(
                Seq::new(
                    items@.len(),
                    |i: int|
                        if 0 <= i < items@.len() {
                            items@[i].view()
                        } else {
                            JsonModel::Null
                        },
                ),
            ),
            Json::Object(members) => JsonModel::Object(
                Seq::new(
                    members@.len(),
                    |i: int|
                        if 0 <= i < members@.len() {
                            Member { name: members@[i].0@, value: members@[i].1.view() }
                        } else {
                            Member { name: Seq::empty(), value: JsonModel::Null }
                        },
                ),
            ),
        }
    }
}

/// Whether one of `members` has the name `key`.
pub open spec fn has_member(members: Seq<Member>, key: Seq<char>) -> bool
    decreases members.len(),
{
    members.len() > 0 && (members[0].name == key || has_member(members.skip(1), key))
}

/// The first of `members` with the name `key`, or null.
pub open spec fn member(members: Seq<Member>, key: Seq<char>) -> JsonModel
    decreases members.len(),
{
    if members.len() == 0 {
        JsonModel::Null
    } else if members[0].name == key {
        members[0].value
    } else {
        member(members.skip(1), key)
    }
}

impl JsonModel {
    /// Whether the value is an object with a member `key`.
    pub open spec fn has(self, key: Seq<char>) -> bool {
        match self {
            JsonModel::Object(members) => has_member(members, key),
            _ => false,
        }
    }

    /// The member `key`; null where the value has none.
    pub open spec fn at(self, key: Seq<char>) -> JsonModel {
        match self {
            JsonModel::Object(members) => member(members, key),
            _ => JsonModel::Null,
        }
    }

    /// The text, where the value is one.
    pub open spec fn text(self) -> Option<Seq<char>> {
        match self {
            JsonModel::Text(t) => Some(t),
            _ => None,
        }
    }

    /// The text, or an empty one where the value is not a text.
    pub open spec fn text_or_empty(self) -> Seq<char> {
        match self {
            JsonModel::Text(t) => t,
            _ => Seq::empty(),
        }
    }

    /// Whether the value is `true`.
    pub open spec fn is_true(self) -> bool {
        self == JsonModel::Bool(true)
    }

    /// The number, or zero where the value is not a 64-bit number.
    pub open spec fn int_or_zero(self) -> int {
        match self {
            JsonModel::Int(n) => n,
            _ => 0,
        }
    }

    /// The items, where the value is an array.
    pub open spec fn items(self) -> Option<Seq<JsonModel>> {
        match self {
            JsonModel::Array(items) => Some(items),
            _ => None,
        }
    }

    /// The items; none where the value is not an array.
    pub open spec fn items_or_none(self) -> Seq<JsonModel> {
        match self {
            JsonModel::Array(items) => items,
            _ => Seq::empty(),
        }
    }

    /// The members, where the value is an object.
    pub open spec fn members(self) -> Option<Seq<Member>> {
        match self {
            JsonModel::Object(members) => Some(members),
            _ => None,
        }
    }
}

/// The member of an object is the value with that name, where each name is there
/// once or none of the earlier members has it; where no member has the name, and in
/// a value that is no object, it is null.
pub proof fn law_member(j: JsonModel, key: Seq<char>)
    ensures
        match j {
            JsonModel::Object(members) => {
                &&& forall|k: int|
                    0 <= k < members.len() && (#[trigger] members[k]).name == key && (forall|i: int|
                        0 <= i < k ==> (#[trigger] members[i]).name != key) ==> j.at(key)
                        == members[k].value
                &&& (forall|i: int| 0 <= i < members.len() ==> (#[trigger] members[i]).name != key)
                    ==> j.at(key) == JsonModel::Null
            },
            _ => j.at(key) == JsonModel::Null,
        },
{
    if let JsonModel::Object(members) = j {
        assert forall|k: int|
            0 <= k < members.len() && (#[trigger] members[k]).name == key && (forall|i: int|
                0 <= i < k ==> (#[trigger] members[i]).name != key) implies j.at(key)
            == members[k].value by {
            lemma_member(members, key, k);
        }
        if forall|i: int| 0 <= i < members.len() ==> (#[trigger] members[i]).name != key {
            lemma_member(members, key, members.len() as int);
        }
    }
}

proof fn lemma_member(members: Seq<Member>, key: Seq<char>, k: int)
    requires
        0 <= k <= members.len(),
        forall|i: int| 0 <= i < k ==> (#[trigger] members[i]).name != key,
        k < members.len() ==> members[k].name == key,
    ensures
        member(members, key) == if k < members.len() {
            members[k].value
        } else {
            JsonModel::Null
        },
    decreases members.len(),
{
    if members.len() > 0 && k > 0 {
        assert(members[0].name != key);
        let rest = members.skip(1);
        assert forall|i: int| 0 <= i < k - 1 implies (#[trigger] rest[i]).name != key by {
            assert(rest[i] == members[i + 1]);
        }
        lemma_member(rest, key, k - 1);
    }
}

/// Reading a text, a flag, a number or a list from a value that is of another kind
/// gives nothing: no text or an empty one, `false`, zero, no items.
pub proof fn law_reads(j: JsonModel)
    ensures
        forall|t: Seq<char>| j.text() == Some(t) <==> j == JsonModel::Text(t),
        j matches JsonModel::Text(t) ==> j.text_or_empty() == t,
        !(j is Text) ==> j.text_or_empty().len() == 0,
        j.is_true() <==> j == JsonModel::Bool(true),
        j matches JsonModel::Int(n) ==> j.int_or_zero() == n,
        !(j is Int) ==> j.int_or_zero() == 0,
        j matches JsonModel::Array(items) ==> j.items_or_none() == items,
        !(j is Array) ==> j.items_or_none().len() == 0,
{
}

/// The text in an optional string.
pub open spec fn text_in(s: Option<String>) -> Option<Seq<char>> {
    match s {
        Some(t) => Some(t@),
        None => None,
    }
}

/// The JSON value of a text, or null for none.
pub open spec fn text_or_null(t: Option<Seq<char>>) -> JsonModel {
    match t {
        Some(t) => JsonModel::Text(t),
        None => JsonModel::Null,
    }
}

/// The values of a list.
pub open spec fn values(list: Seq<Json>) -> Seq<JsonModel> {
    list.map_values(|j: Json| j@)
}

/// The members of a list with their names.
pub open spec fn named_values(list: Seq<(String, Json)>) -> Seq<Member> {
    list.map_values(|m: (String, Json)| Member { name: m.0@, value: m.1@ })
}

impl Json {
    /// The member `key`, where the value is an object that has it.
    pub fn get(&self, key: &str) -> (r: Option<&Json>)
        ensures
            match r {
                Some(j) => self@.has(key@) && j@ == self@.at(key@),
                None => !self@.has(key@) && self@.at(key@) == JsonModel::Null,
            },
    {
        match self {
            Json::Object(members) => {
                let ghost all = self@->Object_0;
                assert(all.skip(0) =~= all);
                let mut i: usize = 0;
                while i < members.len()
                    invariant
                        i <= members@.len(),
                        self@ == JsonModel::Object(all),
                        all.len() == members@.len(),
                        forall|j: int|
                            0 <= j < members@.len() ==> #[trigger] all[j] == (Member {
                                name: members@[j].0@,
                                value: members@[j].1@,
                            }),
                        has_member(all, key@) == has_member(all.skip(i as int), key@),
                        member(all, key@) == member(all.skip(i as int), key@),
                    decreases members@.len() - i,
                {
                    let ghost rest = all.skip(i as int);
                    assert(rest[0] == all[i as int]);
                    assert(rest.skip(1) =~= all.skip(i + 1));
                    if crate::text::same(members[i].0.as_str(), key) {
                        return Some(&members[i].1);
                    }
                    i += 1;
                }
                None
            },
            _ => None,
        }
    }

    /// The text, where the value is one.
    pub fn text(&self) -> (r: Option<String>)
        ensures
            text_in(r) == self@.text(),
    {
        match self {
            Json::Text(t) => Some(t.clone()),
            _ => None,
        }
    }

    /// The text of the member `key`, where there is one.
    pub fn text_at(&self, key: &str) -> (r: Option<String>)
        ensures
            text_in(r) == self@.at(key@).text(),
    {
        match self.get(key) {
            Some(j) => j.text(),
            None => None,
        }
    }

    /// The text of the member `inner` of the member `outer`, where there is one.
    pub fn text_within(&self, outer: &str, inner: &str) -> (r: Option<String>)
        ensures
            text_in(r) == self@.at(outer@).at(inner@).text(),
    {
        match self.get(outer) {
            Some(j) => j.text_at(inner),
            None => None,
        }
    }

    /// The text of the member `key`, or an empty text.
    pub fn text_or_empty_at(&self, key: &str) -> (r: String)
        ensures
            r@ == self@.at(key@).text_or_empty(),
    {
        match self.text_at(key) {
            Some(t) => t,
            None => String::new(),
        }
    }

    /// The text of the member `inner` of the member `outer`, or an empty text.
    pub fn text_or_empty_within(&self, outer: &str, inner: &str) -> (r: String)
        ensures
            r@ == self@.at(outer@).at(inner@).text_or_empty(),
    {
        match self.text_within(outer, inner) {
            Some(t) => t,
            None => String::new(),
        }
    }

    /// Whether the member `key` is `true`.
    pub fn true_at(&self, key: &str) -> (r: bool)
        ensures
            r == self@.at(key@).is_true(),
    {
        match self.get(key) {
            Some(Json::Bool(b)) => *b,
            _ => false,
        }
    }

    /// The number of the member `key`, or zero.
    pub fn int_at(&self, key: &str) -> (r: i64)
        ensures
            r == self@.at(key@).int_or_zero(),
    {
        match self.get(key) {
            Some(Json::Int(n)) => *n,
            _ => 0,
        }
    }

    /// The items, where the value is an array.
    pub fn items(&self) -> (r: Option<&Vec<Json>>)
        ensures
            match r {
                Some(list) => self@.items() == Some(values(list@)),
                None => self@.items() is None,
            },
    {
        match self {
            Json::Array(list) => {
                assert(self@->Array_0 =~= values(list@));
                Some(list)
            },
            _ => None,
        }
    }

    /// The items of the member `key`, where that is an array.
    pub fn items_at(&self, key: &str) -> (r: Option<&Vec<Json>>)
        ensures
            match r {
                Some(list) => self@.at(key@).items() == Some(values(list@)),
                None => self@.at(key@).items() is None,
            },
    {
        match self.get(key) {
            Some(j) => j.items(),
            None => None,
        }
    }

    /// The items of the member `inner` of the member `outer`, where that is an array.
    pub fn items_within(&self, outer: &str, inner: &str) -> (r: Option<&Vec<Json>>)
        ensures
            match r {
                Some(list) => self@.at(outer@).at(inner@).items() == Some(values(list@)),
                None => self@.at(outer@).at(inner@).items() is None,
            },
    {
        match self.get(outer) {
            Some(j) => j.items_at(inner),
            None => None,
        }
    }

    /// The members, where the value is an object.
    pub fn members(&self) -> (r: Option<&Vec<(String, Json)>>)
        ensures
            match r {
                Some(list) => self@.members() == Some(named_values(list@)),
                None => self@.members() is None,
            },
    {
        match self {
            Json::Object(list) => {
                assert(self@->Object_0 =~= named_values(list@));
                Some(list)
            },
            _ => None,
        }
    }

    /// Whether the value is null.
    pub fn is_null(&self) -> (r: bool)
        ensures
            r == (self@ == JsonModel::Null),
    {
        match self {
            Json::Null => true,
            _ => false,
        }
    }

    /// A copy of the value.
    pub fn copy(&self) -> (r: Json)
        ensures
            r@ == self@,
        decreases self,
    {
        match self {
            Json::Null => Json::Null,
            Json::Bool(b) => Json::Bool(*b),
            Json::Int(n) => Json::Int(*n),
            Json::OtherNumber(t) => Json::OtherNumber(t.clone()),
            Json::Text(t) => Json::Text(t.clone()),
            Json::Array(items) => {
                let mut out: Vec<Json> = Vec::new();
                for i in 0..items.len()
                    invariant
                        *self == Json::Array(*items),
                        out@.len() == i,
                        forall|j: int| 0 <= j < i ==> (#[trigger] out@[j])@ == items@[j]@,
                {
                    proof {
                        assert(decreases_to!(*self => self->Array_0));
                        assert(decreases_to!(*items => items@));
                        assert(decreases_to!(items@ => items@[i as int]));
                    }
                    out.push(items[i].copy());
                }
                let r = Json::Array(out);
                assert(r@->Array_0 =~= self@->Array_0);
                r
            },
            Json::Object(members) => {
                let mut out: Vec<(String, Json)> = Vec::new();
                for i in 0..members.len()
                    invariant
                        *self == Json::Object(*members),
                        out@.len() == i,
                        forall|j: int|
                            0 <= j < i ==> (#[trigger] out@[j]).0@ == members@[j].0@ && out@[j].1@
                                == members@[j].1@,
                {
                    proof {
                        assert(decreases_to!(*self => self->Object_0));
                        assert(decreases_to!(*members => members@));
                        assert(decreases_to!(members@ => members@[i as int]));
                        assert(decreases_to!(members@[i as int] => members@[i as int].1));
                    }
                    out.push((members[i].0.clone(), members[i].1.copy()));
                }
                let r = Json::Object(out);
                assert(r@->Object_0 =~= self@->Object_0);
                r
            },
        }
    }
}

/// The JSON value of a text.
pub fn text_value(s: &str) -> (r: Json)
    ensures
        r@ == JsonModel::Text(s@),
{
    Json::Text(s.to_owned())
}

/// The JSON value of a text, or null for none.
pub fn text_or_null_value(s: &Option<String>) -> (r: Json)
    ensures
        r@ == text_or_null(text_in(*s)),
{
    match s {
        Some(t) => text_value(t.as_str()),
        None => Json::Null,
    }
}

/// A member of an object.
pub fn named(name: &str, value: Json) -> (r: (String, Json))
    ensures
        r.0@ == name@,
        r.1 == value,
{
    (name.to_owned(), value)
}

/// The object with the given members.
pub fn object_value(members: Vec<(String, Json)>) -> (r: Json)
    ensures
        r@ == JsonModel::Object(named_values(members@)),
{
    let r = Json::Object(members);
    assert(r@->Object_0 =~= named_values(members@));
    r
}

/// The array of the given items.
pub fn array_value(items: Vec<Json>) -> (r: Json)
    ensures
        r@ == JsonModel::Array(values(items@)),
{
    let r = Json::Array(items);
    assert(r@->Array_0 =~= values(items@));
    r
}

/// Whether the names of `members` stand in order, each once.
pub open spec fn names_increase(members: Seq<Member>) -> bool {
    forall|i: int, j: int|
        0 <= i < j < members.len() ==> before(
            (#[trigger] members[i]).name,
            (#[trigger] members[j]).name,
        )
}

/// Whether in each object of `j` the names stand in order, and each number fits
/// in 64 bits.
pub open spec fn orderly(j: JsonModel) -> bool
    decreases j,
{
    match j {
        JsonModel::OtherNumber(_) => false,
        JsonModel::Array(items) => forall|i: int|
            0 <= i < items.len() ==> orderly(#[trigger] items[i]),
        JsonModel::Object(members) => {
            &&& names_increase(members)
            &&& forall|i: int| 0 <= i < members.len() ==> orderly((#[trigger] members[i]).value)
        },
        _ => true,
    }
}

/// Whether `j` is a text or null.
pub open spec fn is_cell(j: JsonModel) -> bool {
    j is Text || j is Null
}

/// Whether `j` is an array of texts.
pub open spec fn is_text_list(j: JsonModel) -> bool {
    j matches JsonModel::Array(items) && forall|i: int|
        0 <= i < items.len() ==> (#[trigger] items[i]) is Text
}

/// Whether `j` is an object with its names in order whose members are texts or null.
pub open spec fn is_row(j: JsonModel) -> bool {
    j matches JsonModel::Object(members) && names_increase(members) && forall|i: int|
        0 <= i < members.len() ==> is_cell((#[trigger] members[i]).value)
}

/// Whether `j` is an object with its names in order whose members are rows.
pub open spec fn is_table(j: JsonModel) -> bool {
    j matches JsonModel::Object(members) && names_increase(members) && forall|i: int|
        0 <= i < members.len() ==> is_row((#[trigger] members[i]).value)
}

/// A value of `serde_json`.
#[verifier::external_type_specification]
#[verifier::external_body]
pub struct ExValue(serde_json::Value);

/// What a value of `serde_json` holds: its members in the order in which its map
/// walks them, a number that fits in 64 bits with sign as such, any other number
/// in decimal.
pub uninterp spec fn content(v: Value) -> JsonModel;

/// What reading bytes as JSON gives: the value, or the text of the error.
pub uninterp spec fn parsed(bytes: Seq<u8>) -> Result<JsonModel, Seq<char>>;

/// The indented text of a JSON value.
pub uninterp spec fn rendered(j: JsonModel) -> Seq<char>;

/// Whether reading the text `t` as JSON gives `j`.
pub open spec fn reads_as(t: Seq<char>, j: JsonModel) -> bool {
    parsed(vstd::utf8::encode_utf8(t)) == Ok::<JsonModel, Seq<char>>(j)
}

/// `serde_json::from_slice`: the value that the bytes write, or the text of the
/// error, a function of the bytes alone.
#[verifier::external_body]
fn read_value(bytes: &[u8]) -> (r: Result<Value, String>)
    ensures
        match r {
            Ok(v) => parsed(bytes@) == Ok::<JsonModel, Seq<char>>(content(v)),
            Err(e) => parsed(bytes@) == Err::<JsonModel, Seq<char>>(e@),
        },
{
    serde_json::from_slice::<Value>(bytes).map_err(|e| e.to_string())
}

/// The plain form of a `serde_json::Value`, variant by variant.
#[verifier::external_body]
fn plain(v: &Value) -> (r: Json)
    ensures
        r@ == content(*v),
{
    match v {
        Value::Null => Json::Null,
        Value::Bool(b) => Json::Bool(*b),
        Value::Number(n) => match n.as_i64() {
            Some(i) => Json::Int(i),
            None => Json::OtherNumber(n.to_string()),
        },
        Value::String(s) => Json::Text(s.clone()),
        Value::Array(a) => Json::Array(a.iter().map(plain).collect()),
        Value::Object(m) => Json::Object(m.iter().map(|(k, x)| (k.clone(), plain(x))).collect()),
    }
}

/// The `serde_json::Value` of a plain value, variant by variant. The map of an
/// object keeps its names in order, each once, so that a value whose objects are
/// of that form is kept as it is.
#[verifier::external_body]
fn to_value(j: &Json) -> (r: Value)
    requires
        orderly(j@),
    ensures
        content(r) == j@,
{
    match j {
        Json::Null | Json::OtherNumber(_) => Value::Null,
        Json::Bool(b) => Value::Bool(*b),
        Json::Int(n) => Value::from(*n),
        Json::Text(s) => Value::String(s.clone()),
        Json::Array(a) => Value::Array(a.iter().map(to_value).collect()),
        Json::Object(m) => Value::Object(m.iter().map(|e| (e.0.clone(), to_value(&e.1))).collect()),
    }
}

/// `serde_json::to_string_pretty`: the indented text of a value, a function of
/// what it holds. Reading the text of a list of texts or of a table gives the
/// same value back. Nothing is said here of the layout of the text, nor of
/// reading back values of other forms.
#[verifier::external_body]
fn write_value(v: &Value) -> (r: String)
    ensures
        r@ == rendered(content(*v)),
        (is_table(content(*v)) || is_text_list(content(*v))) ==> reads_as(r@, content(*v)),
{
    serde_json::to_string_pretty(v).unwrap()
}

/// Reads bytes as JSON: the value, or the text of the error.
pub fn parse_json(bytes: &[u8]) -> (r: Result<Json, String>)
    ensures
        match r {
            Ok(j) => parsed(bytes@) == Ok::<JsonModel, Seq<char>>(j@),
            Err(e) => parsed(bytes@) == Err::<JsonModel, Seq<char>>(e@),
        },
{
    match read_value(bytes) {
        Ok(v) => Ok(plain(&v)),
        Err(e) => Err(e),
    }
}

/// The indented text of a value. The text of a list of texts or of a table reads
/// back as the same value.
pub fn render_json(j: &Json) -> (r: String)
    requires
        orderly(j@),
    ensures
        r@ == rendered(j@),
        is_table(j@) || is_text_list(j@) ==> reads_as(r@, j@),
{
    write_value(&to_value(j))
}

} // verus!
