//! JSON values as plain data, read from text and written to text by
//! `serde_json`.

use vstd::prelude::*;

use crate::text::same;

verus! {

broadcast use crate::model::group_views;

/// A JSON value.
#[derive(Debug, PartialEq)]
pub enum Json {
    Null,
    Bool(bool),
    /// `unsigned` is the value where it is a non-negative integer; `text` is
    /// the number as JSON writes it.
    Number { unsigned: Option<u64>, text: String },
    Str(String),
    Array(Vec<Json>),
    /// Members in the order in which the object yields them.
    Object(Vec<(String, Json)>),
}

/// Model of [`Json`].
pub enum JsonV {
    Null,
    Bool(bool),
    Number { unsigned: Option<u64>, text: Seq<char> },
    Str(Seq<char>),
    Array(Seq<JsonV>),
    Object(Seq<(Seq<char>, JsonV)>),
}

/// The model of a JSON value.
pub open spec fn json_view(j: Json) -> JsonV
    decreases j,
{
    match j {
        Json::Null => JsonV::Null,
        Json::Bool(b) => JsonV::Bool(b),
        Json::Number { unsigned, text } => JsonV::Number { unsigned, text: text@ },
        Json::Str(s) => JsonV::Str(s@),
        Json::Array(items) => JsonV::Array(items_view(items@)),
        Json::Object(members) => JsonV::Object(members_view(members@)),
    }
}

pub open spec fn items_view(items: Seq<Json>) -> Seq<JsonV>
    decreases items,
{
    Seq::new(
        items.len(),
        |i: int|
            if 0 <= i < items.len() {
                json_view(items[i])
            } else {
                JsonV::Null
            },
    )
}

pub open spec fn members_view(members: Seq<(String, Json)>) -> Seq<(Seq<char>, JsonV)>
    decreases members,
{
    Seq::new(
        members.len(),
        |i: int|
            if 0 <= i < members.len() {
                (members[i].0@, json_view(members[i].1))
            } else {
                (Seq::empty(), JsonV::Null)
            },
    )
}

impl DeepView for Json {
    type V = JsonV;

    open spec fn deep_view(&self) -> JsonV {
        json_view(*self)
    }
}

/// The value of the first member named `key`.
pub open spec fn lookup(members: Seq<(Seq<char>, JsonV)>, key: Seq<char>) -> Option<JsonV>
    decreases members.len(),
{
    if members.len() == 0 {
        None
    } else if members[0].0 == key {
        Some(members[0].1)
    } else {
        lookup(members.drop_first(), key)
    }
}

/// The texts among `items`, in order.
pub open spec fn strings_of(items: Seq<JsonV>) -> Seq<Seq<char>>
    decreases items.len(),
{
    if items.len() == 0 {
        Seq::empty()
    } else {
        match items.last().as_str() {
            Some(s) => strings_of(items.drop_last()).push(s),
            None => strings_of(items.drop_last()),
        }
    }
}

impl JsonV {
    /// The member named `key`, if this is an object that has one.
    pub open spec fn get(self, key: Seq<char>) -> Option<JsonV> {
        match self {
            JsonV::Object(members) => lookup(members, key),
            _ => None,
        }
    }

    pub open spec fn as_str(self) -> Option<Seq<char>> {
        match self {
            JsonV::Str(s) => Some(s),
            _ => None,
        }
    }

    pub open spec fn as_bool(self) -> Option<bool> {
        match self {
            JsonV::Bool(b) => Some(b),
            _ => None,
        }
    }

    pub open spec fn as_u64(self) -> Option<u64> {
        match self {
            JsonV::Number { unsigned, .. } => unsigned,
            _ => None,
        }
    }

    pub open spec fn as_array(self) -> Option<Seq<JsonV>> {
        match self {
            JsonV::Array(items) => Some(items),
            _ => None,
        }
    }

    /// The text of the member `key`.
    pub open spec fn text(self, key: Seq<char>) -> Option<Seq<char>> {
        match self.get(key) {
            Some(v) => v.as_str(),
            None => None,
        }
    }

    /// The text of the member `key`, or `default`.
    pub open spec fn text_or(self, key: Seq<char>, default: Seq<char>) -> Seq<char> {
        match self.text(key) {
            Some(s) => s,
            None => default,
        }
    }

    /// Whether the member `key` is `true`.
    pub open spec fn flag(self, key: Seq<char>) -> bool {
        match self.get(key) {
            Some(v) => v.as_bool() == Some(true),
            None => false,
        }
    }

    /// The non-negative integer at `key`.
    pub open spec fn number(self, key: Seq<char>) -> Option<u64> {
        match self.get(key) {
            Some(v) => v.as_u64(),
            None => None,
        }
    }

    /// The items of the array at `key`.
    pub open spec fn list(self, key: Seq<char>) -> Option<Seq<JsonV>> {
        match self.get(key) {
            Some(v) => v.as_array(),
            None => None,
        }
    }

    /// The texts in the array at `key`; none if there is no such array.
    pub open spec fn strings(self, key: Seq<char>) -> Seq<Seq<char>> {
        match self.list(key) {
            Some(items) => strings_of(items),
            None => Seq::empty(),
        }
    }

    /// The member `key`, or null.
    pub open spec fn at(self, key: Seq<char>) -> JsonV {
        match self.get(key) {
            Some(v) => v,
            None => JsonV::Null,
        }
    }
}

/// The texts among `items`.
pub fn collect_strings(items: &Vec<Json>) -> (out: Vec<String>)
    ensures
        out.deep_view() == strings_of(items_view(items@)),
{
    let mut out: Vec<String> = Vec::new();
    let mut i: usize = 0;
    let ghost all = items_view(items@);
    assert(all.take(0) =~= Seq::empty());
    while i < items.len()
        invariant
            i <= items@.len(),
            all == items_view(items@),
            out.deep_view() == strings_of(all.take(i as int)),
        decreases items@.len() - i,
    {
        assert(all.take(i + 1).drop_last() =~= all.take(i as int));
        assert(all.take(i + 1).last() == json_view(items@[i as int]));
        if let Some(s) = items[i].as_str() {
            out.push(s.to_owned());
        }
        i += 1;
    }
    assert(all.take(i as int) =~= all);
    out
}

impl Json {
    /// The member named `key`, if this is an object that has one.
    pub fn get(&self, key: &str) -> (out: Option<&Json>)
        ensures
            out.deep_view() == self.deep_view().get(key@),
    {
        match self {
            Json::Object(members) => {
                let mut i: usize = 0;
                let ghost all = members_view(members@);
                assert(all.skip(0) =~= all);
                while i < members.len()
                    invariant
                        i <= members@.len(),
                        all == members_view(members@),
                        json_view(*self) == JsonV::Object(all),
                        lookup(all.skip(i as int), key@) == lookup(all, key@),
                    decreases members@.len() - i,
                {
                    assert(all.skip(i as int)[0] == (members@[i as int].0@, json_view(members@[i as int].1)));
                    if same(members[i].0.as_str(), key) {
                        return Some(&members[i].1);
                    }
                    assert(all.skip(i as int).drop_first() =~= all.skip(i + 1));
                    i += 1;
                }
                None
            },
            _ => None,
        }
    }

    pub fn as_str(&self) -> (out: Option<&str>)
        ensures
            out.deep_view() == self.deep_view().as_str(),
    {
        match self {
            Json::Str(s) => Some(s.as_str()),
            _ => None,
        }
    }

    pub fn as_bool(&self) -> (out: Option<bool>)
        ensures
            out == self.deep_view().as_bool(),
    {
        match self {
            Json::Bool(b) => Some(*b),
            _ => None,
        }
    }

    pub fn as_u64(&self) -> (out: Option<u64>)
        ensures
            out == self.deep_view().as_u64(),
    {
        match self {
            Json::Number { unsigned, .. } => *unsigned,
            _ => None,
        }
    }

    pub fn as_array(&self) -> (out: Option<&Vec<Json>>)
        ensures
            match out {
                Some(items) => self.deep_view().as_array() == Some(items_view(items@)),
                None => self.deep_view().as_array() is None,
            },
    {
        match self {
            Json::Array(items) => Some(items),
            _ => None,
        }
    }

    /// The text of the member `key`.
    pub fn text(&self, key: &str) -> (out: Option<&str>)
        ensures
            out.deep_view() == self.deep_view().text(key@),
    {
        match self.get(key) {
            Some(v) => v.as_str(),
            None => None,
        }
    }

    /// The text of the member `key`, or `default`.
    pub fn text_or(&self, key: &str, default: &str) -> (out: String)
        ensures
            out@ == self.deep_view().text_or(key@, default@),
    {
        match self.text(key) {
            Some(s) => s.to_owned(),
            None => default.to_owned(),
        }
    }

    /// The text of the member `key`, as a copy.
    pub fn owned(&self, key: &str) -> (out: Option<String>)
        ensures
            out.deep_view() == self.deep_view().text(key@),
    {
        match self.text(key) {
            Some(s) => Some(s.to_owned()),
            None => None,
        }
    }

    /// Whether the member `key` is `true`.
    pub fn flag(&self, key: &str) -> (out: bool)
        ensures
            out == self.deep_view().flag(key@),
    {
        match self.get(key) {
            Some(v) => match v.as_bool() {
                Some(b) => b,
                None => false,
            },
            None => false,
        }
    }

    /// The non-negative integer at `key`.
    pub fn number(&self, key: &str) -> (out: Option<u64>)
        ensures
            out == self.deep_view().number(key@),
    {
        match self.get(key) {
            Some(v) => v.as_u64(),
            None => None,
        }
    }

    /// The items of the array at `key`.
    pub fn list(&self, key: &str) -> (out: Option<&Vec<Json>>)
        ensures
            match out {
                Some(items) => self.deep_view().list(key@) == Some(items_view(items@)),
                None => self.deep_view().list(key@) is None,
            },
    {
        match self.get(key) {
            Some(v) => v.as_array(),
            None => None,
        }
    }

    /// The texts in the array at `key`.
    pub fn strings(&self, key: &str) -> (out: Vec<String>)
        ensures
            out.deep_view() == self.deep_view().strings(key@),
    {
        match self.list(key) {
            Some(items) => collect_strings(items),
            None => Vec::new(),
        }
    }
}

// ── Reading ─────────────────────────────────────────────────────────────────

/// `serde_json::Value`, the parsed form of a JSON text.
#[verifier::external_type_specification]
#[verifier::external_body]
pub struct ExValue(serde_json::Value);

/// What a `serde_json::Value` holds.
pub uninterp spec fn value_tree(v: serde_json::Value) -> JsonV;

/// What `serde_json::from_str::<Value>` makes of a text; nothing where it
/// reports an error.
pub uninterp spec fn json_parse(text: Seq<char>) -> Option<JsonV>;

/// How the error that `serde_json::from_str::<Value>` reports for a text reads.
pub uninterp spec fn json_error(text: Seq<char>) -> Seq<char>;

/// The outermost layer of a parsed value.
enum Node {
    Null,
    Bool(bool),
    Number { unsigned: Option<u64>, text: String },
    Str(String),
    Array(Vec<serde_json::Value>),
    Object(Vec<(String, serde_json::Value)>),
}

impl Node {
    spec fn tree(self) -> JsonV {
        match self {
            Node::Null => JsonV::Null,
            Node::Bool(b) => JsonV::Bool(b),
            Node::Number { unsigned, text } => JsonV::Number { unsigned, text: text@ },
            Node::Str(s) => JsonV::Str(s@),
            Node::Array(items) => JsonV::Array(
                Seq::new(items@.len(), |i: int| value_tree(items@[i])),
            ),
            Node::Object(members) => JsonV::Object(
                Seq::new(members@.len(), |i: int| (members@[i].0@, value_tree(members@[i].1))),
            ),
        }
    }
}

/// `serde_json::from_str::<Value>`: the parsed value, or the text of the error.
/// Both are named, not spelled out.
#[verifier::external_body]
fn parse_value(text: &str) -> (out: Result<serde_json::Value, String>)
    ensures
        match out {
            Ok(v) => json_parse(text@) == Some(value_tree(v)),
            Err(e) => json_parse(text@) is None && e@ == json_error(text@),
        },
{
    serde_json::from_str::<serde_json::Value>(text).map_err(|e| e.to_string())
}

/// The variants of `serde_json::Value` told apart. A number keeps what
/// `Number::as_u64` says of it and the text that `Display` gives it; the
/// members of an object come in the order of the map's own iteration.
#[verifier::external_body]
fn open_value(v: serde_json::Value) -> (out: Node)
    ensures
        out.tree() == value_tree(v),
{
    match v {
        serde_json::Value::Null => Node::Null,
        serde_json::Value::Bool(b) => Node::Bool(b),
        serde_json::Value::Number(n) => Node::Number { unsigned: n.as_u64(), text: n.to_string() },
        serde_json::Value::String(s) => Node::Str(s),
        serde_json::Value::Array(a) => Node::Array(a),
        serde_json::Value::Object(m) => Node::Object(m.into_iter().collect()),
    }
}

fn json_of_value(v: serde_json::Value) -> (out: Json)
    ensures
        out.deep_view() == value_tree(v),
    decreases value_tree(v),
{
    match open_value(v) {
        Node::Null => Json::Null,
        Node::Bool(b) => Json::Bool(b),
        Node::Number { unsigned, text } => Json::Number { unsigned, text },
        Node::Str(s) => Json::Str(s),
        Node::Array(items) => {
            let mut out: Vec<Json> = Vec::new();
            let ghost all = items@;
            for item in it: items
                invariant
                    it.seq() == all,
                    value_tree(v) == JsonV::Array(Seq::new(all.len(), |i: int| value_tree(all[i]))),
                    out@.len() == it.index(),
                    forall|i: int|
                        0 <= i < out@.len() ==> json_view(#[trigger] out@[i]) == value_tree(all[i]),
            {
                assert(value_tree(v)->Array_0[it.index()] == value_tree(item));
                out.push(json_of_value(item));
            }
            assert(items_view(out@) =~= value_tree(v)->Array_0);
            Json::Array(out)
        },
        Node::Object(members) => {
            let mut out: Vec<(String, Json)> = Vec::new();
            let ghost all = members@;
            for item in it: members
                invariant
                    it.seq() == all,
                    value_tree(v) == JsonV::Object(
                        Seq::new(all.len(), |i: int| (all[i].0@, value_tree(all[i].1))),
                    ),
                    out@.len() == it.index(),
                    forall|i: int|
                        0 <= i < out@.len() ==> (#[trigger] out@[i]).0@ == all[i].0@ && json_view(
                            out@[i].1,
                        ) == value_tree(all[i].1),
            {
                assert(value_tree(v)->Object_0[it.index()].1 == value_tree(item.1));
                let (key, value) = item;
                out.push((key, json_of_value(value)));
            }
            assert(members_view(out@) =~= value_tree(v)->Object_0);
            Json::Object(out)
        },
    }
}

/// Reads a JSON text; nothing if it is none.
pub fn parse_json(text: &str) -> (out: Option<Json>)
    ensures
        out.deep_view() == json_parse(text@),
{
    match parse_value(text) {
        Ok(v) => Some(json_of_value(v)),
        Err(_) => None,
    }
}

/// Reads a JSON text, or says what is wrong with it.
pub fn parse_or_error(text: &str) -> (out: Result<Json, String>)
    ensures
        match out {
            Ok(j) => json_parse(text@) == Some(j.deep_view()),
            Err(e) => json_parse(text@) is None && e@ == json_error(text@),
        },
{
    match parse_value(text) {
        Ok(v) => Ok(json_of_value(v)),
        Err(e) => Err(e),
    }
}

/// A copy of a JSON value.
pub fn copy_json(j: &Json) -> (out: Json)
    ensures
        out.deep_view() == j.deep_view(),
    decreases json_view(*j),
{
    match j {
        Json::Null => Json::Null,
        Json::Bool(b) => Json::Bool(*b),
        Json::Number { unsigned, text } => Json::Number { unsigned: *unsigned, text: text.clone() },
        Json::Str(s) => Json::Str(s.clone()),
        Json::Array(items) => {
            let mut out: Vec<Json> = Vec::new();
            let mut i: usize = 0;
            while i < items.len()
                invariant
                    i <= items@.len(),
                    json_view(*j) == JsonV::Array(items_view(items@)),
                    out@.len() == i,
                    forall|k: int|
                        0 <= k < i ==> json_view(#[trigger] out@[k]) == json_view(items@[k]),
                decreases items@.len() - i,
            {
                assert(json_view(*j)->Array_0[i as int] == json_view(items@[i as int]));
                out.push(copy_json(&items[i]));
                i += 1;
            }
            assert(items_view(out@) =~= items_view(items@));
            Json::Array(out)
        },
        Json::Object(members) => {
            let mut out: Vec<(String, Json)> = Vec::new();
            let mut i: usize = 0;
            while i < members.len()
                invariant
                    i <= members@.len(),
                    json_view(*j) == JsonV::Object(members_view(members@)),
                    out@.len() == i,
                    forall|k: int|
                        0 <= k < i ==> (#[trigger] out@[k]).0@ == members@[k].0@ && json_view(
                            out@[k].1,
                        ) == json_view(members@[k].1),
                decreases members@.len() - i,
            {
                assert(json_view(*j)->Object_0[i as int].1 == json_view(members@[i as int].1));
                out.push((members[i].0.clone(), copy_json(&members[i].1)));
                i += 1;
            }
            assert(members_view(out@) =~= members_view(members@));
            Json::Object(out)
        },
    }
}

// ── Writing ─────────────────────────────────────────────────────────────────

/// What a member of a written object holds.
pub enum Field {
    Text(String),
    Flag(bool),
    /// A list of objects whose members are texts.
    Records(Vec<Vec<(String, String)>>),
}

/// Model of [`Field`].
pub enum FieldV {
    Text(Seq<char>),
    Flag(bool),
    Records(Seq<Seq<(Seq<char>, Seq<char>)>>),
}

impl DeepView for Field {
    type V = FieldV;

    open spec fn deep_view(&self) -> FieldV {
        match self {
            Field::Text(s) => FieldV::Text(s@),
            Field::Flag(b) => FieldV::Flag(*b),
            Field::Records(list) => FieldV::Records(list.deep_view()),
        }
    }
}

/// The text that `serde_json` writes for an object with these members.
pub uninterp spec fn object_json(fields: Seq<(Seq<char>, FieldV)>) -> Seq<char>;

/// No two members share a name.
pub open spec fn distinct_keys<T>(members: Seq<(Seq<char>, T)>) -> bool {
    forall|i: int, j: int|
        0 <= i < j < members.len() ==> (#[trigger] members[i]).0 != (#[trigger] members[j]).0
}

/// `j` holds the text members `record`.
pub open spec fn carries_record(j: JsonV, record: Seq<(Seq<char>, Seq<char>)>) -> bool {
    forall|i: int|
        0 <= i < record.len() ==> j.get((#[trigger] record[i]).0) == Some(JsonV::Str(record[i].1))
}

/// `j` holds what `field` says.
pub open spec fn carries_field(j: JsonV, field: FieldV) -> bool {
    match field {
        FieldV::Text(s) => j == JsonV::Str(s),
        FieldV::Flag(b) => j == JsonV::Bool(b),
        FieldV::Records(list) => j.as_array() matches Some(items) && items.len() == list.len() && (
        forall|i: int|
            0 <= i < list.len() && distinct_keys(list[i]) ==> carries_record(
                #[trigger] items[i],
                list[i],
            )),
    }
}

/// `j` is an object with these members and no others.
pub open spec fn carries(j: JsonV, fields: Seq<(Seq<char>, FieldV)>) -> bool {
    &&& forall|i: int|
        0 <= i < fields.len() ==> j.get((#[trigger] fields[i]).0) is Some && carries_field(
            j.at(fields[i].0),
            fields[i].1,
        )
    &&& forall|key: Seq<char>|
        (forall|i: int| 0 <= i < fields.len() ==> (#[trigger] fields[i]).0 != key) ==> (
        #[trigger] j.get(key)) is None
}

/// Reading `text` gives an object with these members, provided that no two
/// share a name.
pub open spec fn reads_back(text: Seq<char>, fields: Seq<(Seq<char>, FieldV)>) -> bool {
    distinct_keys(fields) ==> match json_parse(text) {
        Some(j) => carries(j, fields),
        None => false,
    }
}

/// A member that holds a text.
pub(crate) fn text_field(key: &str, value: &str) -> (out: (String, Field))
    ensures
        out.deep_view() == (key@, FieldV::Text(value@)),
{
    (key.to_owned(), Field::Text(value.to_owned()))
}

/// `serde_json::Value::to_string` of an object with these members. The text
/// is named; of it is said that reading it with `serde_json::from_str` gives
/// the members back, where no two share a name.
#[verifier::external_body]
pub(crate) fn object_text(fields: Vec<(String, Field)>) -> (out: String)
    ensures
        out@ == object_json(fields.deep_view()),
        reads_back(out@, fields.deep_view()),
{
    let mut map = serde_json::Map::new();
    for (key, field) in fields {
        let value = match field {
            Field::Text(s) => serde_json::Value::String(s),
            Field::Flag(b) => serde_json::Value::Bool(b),
            Field::Records(list) => serde_json::Value::Array(list.into_iter().map(|r| serde_json::Value::Object(
                r.into_iter().map(|(k, v)| (k, serde_json::Value::String(v))).collect())).collect()),
        };
        map.insert(key, value);
    }
    serde_json::Value::Object(map).to_string()
}

// ── Laws ────────────────────────────────────────────────────────────────────

/// An object's member is found by its name, behind whatever other members; the first of
/// that name counts. Without one, and in what is no object, nothing is found.
pub proof fn law_member_is_found(
    front: Seq<(Seq<char>, JsonV)>,
    key: Seq<char>,
    value: JsonV,
    rest: Seq<(Seq<char>, JsonV)>,
)
    requires
        forall|i: int| 0 <= i < front.len() ==> (#[trigger] front[i]).0 != key,
    ensures
        JsonV::Object(front + seq![(key, value)] + rest).get(key) == Some(value),
        JsonV::Object(front).get(key) is None,
    decreases front.len(),
{
    let whole = front + seq![(key, value)] + rest;
    if front.len() > 0 {
        let less = front.drop_first();
        assert forall|i: int| 0 <= i < less.len() implies (#[trigger] less[i]).0 != key by {
            assert(less[i] == front[i + 1]);
        }
        assert(whole[0] == front[0]);
        assert(whole.drop_first() =~= less + seq![(key, value)] + rest);
        law_member_is_found(less, key, value, rest);
    } else {
        assert(whole[0] == (key, value));
    }
}

/// A member is read as what it is, and as nothing else: a text as a text, `true` as a
/// set flag, a non-negative integer as a number, an array as its items.
pub proof fn law_members_are_read_as_they_are(j: JsonV, key: Seq<char>, default: Seq<char>)
    ensures
        match j.get(key) {
            Some(JsonV::Str(s)) => j.text(key) == Some(s) && j.text_or(key, default) == s && !j.flag(
                key,
            ) && j.number(key) is None && j.list(key) is None,
            Some(JsonV::Bool(b)) => j.flag(key) == b && j.text(key) is None && j.number(key) is None
                && j.list(key) is None,
            Some(JsonV::Number { unsigned, .. }) => j.number(key) == unsigned && j.text(key) is None
                && !j.flag(key) && j.list(key) is None,
            Some(JsonV::Array(items)) => j.list(key) == Some(items) && j.text(key) is None
                && !j.flag(key) && j.number(key) is None,
            _ => j.text(key) is None && j.text_or(key, default) == default && !j.flag(key)
                && j.number(key) is None && j.list(key) is None && j.strings(key).len() == 0,
        },
        j.get(key) matches Some(v) ==> j.at(key) == v,
        j.get(key) is None ==> j.at(key) is Null,
{
}

/// The texts of an array are its items that are texts, all of them and in order.
pub proof fn law_texts_are_collected_in_order(a: Seq<JsonV>, b: Seq<JsonV>, v: JsonV)
    ensures
        strings_of(a + b) == strings_of(a) + strings_of(b),
        v matches JsonV::Str(s) ==> strings_of(seq![v]) == seq![s],
        !(v is Str) ==> strings_of(seq![v]).len() == 0,
    decreases b.len(),
{
    let one = seq![v];
    assert(one.drop_last() =~= Seq::empty());
    assert(strings_of(one.drop_last()) =~= Seq::empty());
    if let Some(s) = v.as_str() {
        assert(strings_of(one) =~= seq![s]);
    }
    if b.len() == 0 {
        assert(a + b =~= a);
        assert(strings_of(a) + strings_of(b) =~= strings_of(a));
    } else {
        assert((a + b).drop_last() =~= a + b.drop_last());
        law_texts_are_collected_in_order(a, b.drop_last(), v);
        assert(strings_of(a + b) =~= strings_of(a) + strings_of(b));
    }
}

/// The texts under a name are those of the array there.
pub proof fn law_texts_are_found(j: JsonV, key: Seq<char>, items: Seq<JsonV>)
    requires
        j.get(key) == Some(JsonV::Array(items)),
    ensures
        j.strings(key) == strings_of(items),
{
}

} // verus!
