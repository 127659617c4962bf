//! JSON documents, as far as the messages of the exchange need them.

use vstd::prelude::*;

use crate::book::{level_views, LevelView, OrderbookLevel};
use crate::text::{
    decimal_text, law_unsigned_round_trip, parse_u32, parse_u64, same_text, unsigned_up_to,
    unsigned_value,
};

verus! {

/// A JSON document. Of a number its value as an unsigned 64-bit integer is kept,
/// where it has one, and how it is written.
#[derive(Debug)]
pub enum Json {
    Null,
    Bool(bool),
    Number(Option<u64>, String),
    Text(String),
    Array(Vec<Json>),
    Object(Vec<(String, Json)>),
}

/// The content of a JSON document; the members of an object are in the order
/// in which they are listed.
pub enum JsonTree {
    Null,
    Bool(bool),
    Number(Option<u64>, Seq<char>),
    Text(Seq<char>),
    Array(Seq<JsonTree>),
    Object(Seq<(Seq<char>, JsonTree)>),
}

/// The document type of `serde_json`.
#[verifier::external_type_specification]
#[verifier::external_body]
pub struct ExValue(serde_json::Value);

/// The error type of `serde_json`.
#[verifier::external_type_specification]
#[verifier::external_body]
pub struct ExJsonError(serde_json::Error);

/// What a `serde_json` document holds.
pub uninterp spec fn value_tree(value: serde_json::Value) -> JsonTree;

/// The document that `serde_json::from_str` reads from a text.
pub uninterp spec fn document(text: Seq<char>) -> Option<JsonTree>;

/// `serde_json::from_str`: reads a document. What it reads is named `document`.
#[verifier::external_body]
fn read_value(text: &str) -> (r: Result<serde_json::Value, serde_json::Error>)
    ensures
        match r {
            Ok(v) => document(text@) == Some(value_tree(v)),
            Err(_) => document(text@) is None,
        },
{
    serde_json::from_str(text)
}

/// One layer of a `serde_json` document.
pub enum Layer {
    Null,
    Bool(bool),
    Number(Option<u64>, String),
    Text(String),
    Array(Vec<serde_json::Value>),
    Object(Vec<(String, serde_json::Value)>),
}

impl Layer {
    pub open spec fn tree(&self) -> JsonTree {
        match self {
            Layer::Null => JsonTree::Null,
            Layer::Bool(b) => JsonTree::Bool(*b),
            Layer::Number(n, text) => JsonTree::Number(*n, text@),
            Layer::Text(s) => JsonTree::Text(s@),
            Layer::Array(items) => JsonTree::Array(
                items@.map_values(|v: serde_json::Value| value_tree(v)),
            ),
            Layer::Object(members) => JsonTree::Object(
                members@.map_values(|m: (String, serde_json::Value)| (m.0@, value_tree(m.1))),
            ),
        }
    }
}

/// The variants of `serde_json::Value`, each with what it holds: of a number
/// what `as_u64` and `to_string` give, of an object its members in the order of
/// its iterator.
#[verifier::external_body]
fn open_value(value: serde_json::Value) -> (r: Layer)
    ensures
        r.tree() == value_tree(value),
{
    match value {
        serde_json::Value::Null => Layer::Null,
        serde_json::Value::Bool(b) => Layer::Bool(b),
        serde_json::Value::Number(n) => Layer::Number(n.as_u64(), n.to_string()),
        serde_json::Value::String(s) => Layer::Text(s),
        serde_json::Value::Array(items) => Layer::Array(items),
        serde_json::Value::Object(members) => Layer::Object(members.into_iter().collect()),
    }
}

/// The compact text in which `serde_json` writes a document.
pub uninterp spec fn compact_text(tree: JsonTree) -> Seq<char>;

/// `to_string` of `serde_json::Value`: the compact text of a document, named
/// `compact_text`. A number is written as its own `to_string` writes it, and a
/// null as `null`.
#[verifier::external_body]
fn write_value(value: &serde_json::Value) -> (r: String)
    ensures
        r@ == compact_text(value_tree(*value)),
        value_tree(*value) is Number ==> r@ == value_tree(*value)->Number_1,
        value_tree(*value) is Null ==> r@ == "null"@,
{
    value.to_string()
}

impl Json {
    pub open spec fn tree(&self) -> JsonTree
        decreases self,
    {
        match self {
            Json::Null => JsonTree::Null,
            Json::Bool(b) => JsonTree::Bool(*b),
            Json::Number(n, text) => JsonTree::Number(*n, text@),
            Json::Text(s) => JsonTree::Text(s@),
            Json::Array(items) => JsonTree::Array(
                Seq::new(
                    items@.len(),
                    |i: int|
                        if 0 <= i < items@.len() {
                            items@[i].tree()
                        } else {
                            JsonTree::Null
                        },
                ),
            ),
            Json::Object(members) => JsonTree::Object(
                Seq::new(
                    members@.len(),
                    |i: int|
                        if 0 <= i < members@.len() {
                            (members@[i].0@, members@[i].1.tree())
                        } else {
                            (Seq::empty(), JsonTree::Null)
                        },
                ),
            ),
        }
    }

    /// The document that a `serde_json` document holds.
    pub fn from_value(value: serde_json::Value) -> (r: Json)
        ensures
            r.tree() == value_tree(value),
        decreases value_tree(value),
    {
        match open_value(value) {
            Layer::Null => Json::Null,
            Layer::Bool(b) => Json::Bool(b),
            Layer::Number(n, text) => Json::Number(n, text),
            Layer::Text(s) => Json::Text(s),
            Layer::Array(items) => {
                let ghost all = items@;
                let mut out: Vec<Json> = Vec::new();
                for v in it: items
                    invariant
                        it.seq() == all,
                        value_tree(value) == JsonTree::Array(
                            all.map_values(|v: serde_json::Value| value_tree(v)),
                        ),
                        out@.len() == it.index(),
                        forall|k: int|
                            0 <= k < out@.len() ==> (#[trigger] out@[k]).tree() == value_tree(
                                all[k],
                            ),
                {
                    proof {
                        let trees = all.map_values(|v: serde_json::Value| value_tree(v));
                        assert(trees[it.index() as int] == value_tree(v));
                        assert(decreases_to!(value_tree(value) => value_tree(value)->Array_0));
                        assert(decreases_to!(trees => trees[it.index() as int]));
                    }
                    out.push(Json::from_value(v));
                }
                let r = Json::Array(out);
                proof {
                    assert(r.tree()->Array_0 =~= value_tree(value)->Array_0);
                }
                r
            },
            Layer::Object(members) => {
                let ghost all = members@;
                let ghost pair = |m: (String, serde_json::Value)| (m.0@, value_tree(m.1));
                let mut out: Vec<(String, Json)> = Vec::new();
                for m in it: members
                    invariant
                        it.seq() == all,
                        pair == (|m: (String, serde_json::Value)| (m.0@, value_tree(m.1))),
                        value_tree(value) == JsonTree::Object(all.map_values(pair)),
                        out@.len() == it.index(),
                        forall|k: int|
                            0 <= k < out@.len() ==> (#[trigger] out@[k]).0@ == all[k].0@
                                && out@[k].1.tree() == value_tree(all[k].1),
                {
                    proof {
                        let trees = all.map_values(pair);
                        assert(trees[it.index() as int].1 == value_tree(m.1));
                        assert(decreases_to!(value_tree(value) => value_tree(value)->Object_0));
                        assert(decreases_to!(trees => trees[it.index() as int]));
                        assert(decreases_to!(trees[it.index() as int] => trees[it.index() as int].1));
                    }
                    let (key, v) = m;
                    out.push((key, Json::from_value(v)));
                }
                let r = Json::Object(out);
                proof {
                    assert(r.tree()->Object_0 =~= value_tree(value)->Object_0);
                }
                r
            },
        }
    }
}

/// Why a text is not a JSON document.
#[derive(Clone, Copy, Debug, PartialEq, Eq, Structural)]
pub enum JsonError {
    Malformed,
}

/// Reads a document as `serde_json` holds it.
pub fn parse_value(text: &str) -> (r: Result<serde_json::Value, JsonError>)
    ensures
        match r {
            Ok(v) => document(text@) == Some(value_tree(v)),
            Err(JsonError::Malformed) => document(text@) is None,
        },
{
    match read_value(text) {
        Ok(v) => Ok(v),
        Err(_) => Err(JsonError::Malformed),
    }
}

// ---------------------------------------------------------------------------
// Access
// ---------------------------------------------------------------------------

/// The place of the first member with a key, or the number of members.
pub open spec fn member_place(members: Seq<(Seq<char>, JsonTree)>, key: Seq<char>) -> int
    decreases members.len(),
{
    if members.len() == 0 {
        0
    } else if members[0].0 == key {
        0
    } else {
        1 + member_place(members.skip(1), key)
    }
}

/// The member of an object with a key; what is no object has no members.
pub open spec fn member(tree: JsonTree, key: Seq<char>) -> Option<JsonTree> {
    match tree {
        JsonTree::Object(members) => {
            let at = member_place(members, key);
            if at < members.len() {
                Some(members[at].1)
            } else {
                None
            }
        },
        _ => None,
    }
}

proof fn lemma_member_place(members: Seq<(Seq<char>, JsonTree)>, key: Seq<char>, at: int)
    requires
        0 <= at <= members.len(),
        forall|k: int| 0 <= k < at ==> (#[trigger] members[k]).0 != key,
        at < members.len() ==> members[at].0 == key,
    ensures
        member_place(members, key) == at,
    decreases members.len(),
{
    if members.len() > 0 && at > 0 {
        assert(members[0].0 != key);
        let rest = members.skip(1);
        assert forall|k: int| 0 <= k < at - 1 implies (#[trigger] rest[k]).0 != key by {
            assert(rest[k] == members[k + 1]);
        }
        lemma_member_place(rest, key, at - 1);
    }
}

impl Json {
    /// Reads a document.
    pub fn parse(text: &str) -> (r: Result<Json, JsonError>)
        ensures
            match r {
                Ok(j) => document(text@) == Some(j.tree()),
                Err(JsonError::Malformed) => document(text@) is None,
            },
    {
        match parse_value(text) {
            Ok(v) => Ok(Json::from_value(v)),
            Err(e) => Err(e),
        }
    }

    /// The member of an object with a key.
    pub fn get(&self, key: &str) -> (r: Option<&Json>)
        ensures
            match r {
                Some(j) => member(self.tree(), key@) == Some(j.tree()),
                None => member(self.tree(), key@) is None,
            },
    {
        match self {
            Json::Object(members) => {
                let ghost views = self.tree()->Object_0;
                let mut i: usize = 0;
                while i < members.len()
                    invariant
                        *self == Json::Object(*members),
                        views == self.tree()->Object_0,
                        self.tree() is Object,
                        views.len() == members@.len(),
                        i <= members@.len(),
                        forall|k: int| 0 <= k < i ==> (#[trigger] views[k]).0 != key@,
                    decreases members@.len() - i,
                {
                    assert(views[i as int] == (
                        members@[i as int].0@,
                        members@[i as int].1.tree(),
                    ));
                    if same_text(members[i].0.as_str(), key) {
                        proof {
                            lemma_member_place(views, key@, i as int);
                        }
                        return Some(&members[i].1);
                    }
                    i += 1;
                }
                proof {
                    lemma_member_place(views, key@, i as int);
                }
                None
            },
            _ => None,
        }
    }

    /// The text of a document that is a text.
    pub fn as_str(&self) -> (r: Option<&str>)
        ensures
            match r {
                Some(s) => self.tree() == JsonTree::Text(s@),
                None => !(self.tree() is Text),
            },
    {
        match self {
            Json::Text(s) => Some(s.as_str()),
            _ => None,
        }
    }

    /// The value of a document that is an unsigned 64-bit number.
    pub fn as_u64(&self) -> (r: Option<u64>)
        ensures
            r == number_of(self.tree()),
    {
        match self {
            Json::Number(n, _) => *n,
            _ => None,
        }
    }
}

/// The unsigned 64-bit value of a number.
pub open spec fn number_of(tree: JsonTree) -> Option<u64> {
    match tree {
        JsonTree::Number(n, _) => n,
        _ => None,
    }
}

// ---------------------------------------------------------------------------
// Ids
// ---------------------------------------------------------------------------

/// An id: an unsigned 64-bit number, or a text that denotes one.
pub open spec fn id_of(tree: JsonTree) -> Option<u64> {
    match tree {
        JsonTree::Number(n, _) => n,
        JsonTree::Text(s) => match unsigned_up_to(s, u64::MAX as nat) {
            Some(n) => Some(n as u64),
            None => None,
        },
        _ => None,
    }
}

/// The market id that a document stands for.
pub fn parse_market_id(v: &Json) -> (r: Option<u64>)
    ensures
        r == id_of(v.tree()),
{
    match v {
        Json::Number(n, _) => *n,
        Json::Text(s) => parse_u64(s.as_str()),
        _ => None,
    }
}

/// Why a document is no chain id: it is of the wrong kind, or a text that
/// denotes no unsigned 64-bit number.
#[derive(Clone, Copy, Debug, PartialEq, Eq, Structural)]
pub enum ChainIdError {
    BadChainId,
    NotANumber,
}

/// The chain id that a document stands for.
pub fn de_chain_id(v: &Json) -> (r: Result<u64, ChainIdError>)
    ensures
        match r {
            Ok(n) => id_of(v.tree()) == Some(n),
            Err(ChainIdError::NotANumber) => v.tree() is Text && id_of(v.tree()) is None,
            Err(ChainIdError::BadChainId) => !(v.tree() is Text) && id_of(v.tree()) is None,
        },
{
    match v {
        Json::Number(Some(n), _) => Ok(*n),
        Json::Text(s) => match parse_u64(s.as_str()) {
            Some(n) => Ok(n),
            None => Err(ChainIdError::NotANumber),
        },
        _ => Err(ChainIdError::BadChainId),
    }
}

/// The market id with which orders are placed: the low thirty-two bits of an
/// unsigned number, or the 32-bit number that a text denotes.
pub open spec fn order_market_id_of(tree: JsonTree) -> Option<u32> {
    match tree {
        JsonTree::Number(Some(n), _) => Some((n % 0x1_0000_0000) as u32),
        JsonTree::Text(s) => match unsigned_up_to(s, u32::MAX as nat) {
            Some(n) => Some(n as u32),
            None => None,
        },
        _ => None,
    }
}

/// The market id with which orders are placed.
pub fn order_market_id(v: &Json) -> (r: Option<u32>)
    ensures
        r == order_market_id_of(v.tree()),
{
    match v {
        Json::Number(Some(n), _) => Some((*n % 0x1_0000_0000) as u32),
        Json::Text(s) => parse_u32(s.as_str()),
        _ => None,
    }
}

// ---------------------------------------------------------------------------
// Levels
// ---------------------------------------------------------------------------

/// A level: an object whose members `price` and `quantity` are texts, or a list
/// of these two texts alone.
pub open spec fn level_of(tree: JsonTree) -> Option<LevelView> {
    match tree {
        JsonTree::Object(_) => match (member(tree, "price"@), member(tree, "quantity"@)) {
            (Some(JsonTree::Text(price)), Some(JsonTree::Text(quantity))) => Some(
                LevelView { price, quantity },
            ),
            _ => None,
        },
        JsonTree::Array(items) => if items.len() == 2 && items[0] is Text && items[1] is Text {
            Some(LevelView { price: items[0]->Text_0, quantity: items[1]->Text_0 })
        } else {
            None
        },
        _ => None,
    }
}

/// The levels that a list holds, where each of its items is a level.
pub open spec fn levels_of(items: Seq<JsonTree>) -> Option<Seq<LevelView>> {
    if forall|i: int| 0 <= i < items.len() ==> level_of(#[trigger] items[i]) is Some {
        Some(items.map_values(|t: JsonTree| level_of(t)->0))
    } else {
        None
    }
}

/// The levels under a key: those of a list of levels, and none where the member
/// is missing or is anything else.
pub open spec fn levels_under(tree: JsonTree, key: Seq<char>) -> Seq<LevelView> {
    match member(tree, key) {
        Some(JsonTree::Array(items)) => match levels_of(items) {
            Some(levels) => levels,
            None => Seq::empty(),
        },
        _ => Seq::empty(),
    }
}

fn text_copy(v: &Json) -> (r: Option<String>)
    ensures
        match r {
            Some(s) => v.tree() == JsonTree::Text(s@),
            None => !(v.tree() is Text),
        },
{
    match v {
        Json::Text(s) => Some(s.clone()),
        _ => None,
    }
}

fn parse_level(v: &Json) -> (r: Option<OrderbookLevel>)
    ensures
        match r {
            Some(l) => level_of(v.tree()) == Some(l@),
            None => level_of(v.tree()) is None,
        },
{
    match v {
        Json::Object(_) => {
            let price = match v.get("price") {
                Some(p) => text_copy(p),
                None => None,
            };
            let quantity = match v.get("quantity") {
                Some(q) => text_copy(q),
                None => None,
            };
            match (price, quantity) {
                (Some(price), Some(quantity)) => Some(OrderbookLevel { price, quantity }),
                _ => None,
            }
        },
        Json::Array(items) => {
            if items.len() != 2 {
                return None;
            }
            assert(v.tree()->Array_0[0] == items@[0].tree());
            assert(v.tree()->Array_0[1] == items@[1].tree());
            match (text_copy(&items[0]), text_copy(&items[1])) {
                (Some(price), Some(quantity)) => Some(OrderbookLevel { price, quantity }),
                _ => None,
            }
        },
        _ => None,
    }
}

/// The levels under a key of the data of a message.
pub fn parse_levels(data: &Json, key: &str) -> (r: Vec<OrderbookLevel>)
    ensures
        level_views(r@) == levels_under(data.tree(), key@),
{
    match data.get(key) {
        Some(list) => {
            match list {
                Json::Array(items) => {
                    let ghost trees = list.tree()->Array_0;
                    let mut out: Vec<OrderbookLevel> = Vec::new();
                    let mut i: usize = 0;
                    while i < items.len()
                        invariant
                            *list == Json::Array(*items),
                            list.tree() is Array,
                            trees == list.tree()->Array_0,
                            trees.len() == items@.len(),
                            member(data.tree(), key@) == Some(list.tree()),
                            i <= items@.len(),
                            out@.len() == i,
                            forall|k: int|
                                0 <= k < i ==> level_of(#[trigger] trees[k]) == Some(out@[k]@),
                        decreases items@.len() - i,
                    {
                        assert(trees[i as int] == items@[i as int].tree());
                        match parse_level(&items[i]) {
                            Some(l) => {
                                out.push(l);
                            },
                            None => {
                                let none: Vec<OrderbookLevel> = Vec::new();
                                assert(level_views(none@) =~= Seq::empty());
                                return none;
                            },
                        }
                        i += 1;
                    }
                    assert(level_views(out@) =~= levels_of(trees)->0);
                    out
                },
                _ => {
                    let none: Vec<OrderbookLevel> = Vec::new();
                    assert(level_views(none@) =~= Seq::empty());
                    none
                },
            }
        },
        None => {
            let none: Vec<OrderbookLevel> = Vec::new();
            assert(level_views(none@) =~= Seq::empty());
            none
        },
    }
}

// ---------------------------------------------------------------------------
// Digests
// ---------------------------------------------------------------------------

/// What a line of the message log shows of a message.
pub struct Digest {
    pub channel: String,
    pub block_number: String,
    pub log_index: String,
    pub checksum: String,
}

/// The compact text of a member, `null` where it is missing.
pub open spec fn shown(tree: JsonTree, key: Seq<char>) -> Seq<char> {
    match member(tree, key) {
        Some(t) => compact_text(t),
        None => "null"@,
    }
}

/// The channel of a message, `?` where it is missing or no text.
pub open spec fn channel_of(tree: JsonTree) -> Seq<char> {
    match member(tree, "channel"@) {
        Some(JsonTree::Text(s)) => s,
        _ => "?"@,
    }
}

pub open spec fn is_digest_of(d: Digest, tree: JsonTree) -> bool {
    &&& d.channel@ == channel_of(tree)
    &&& d.block_number@ == shown(tree, "block_number"@)
    &&& d.log_index@ == shown(tree, "log_index"@)
    &&& d.checksum@ == shown(tree, "checksum"@)
}

pub open spec fn member_trees(members: Seq<(String, serde_json::Value)>) -> Seq<
    (Seq<char>, JsonTree),
> {
    members.map_values(|m: (String, serde_json::Value)| (m.0@, value_tree(m.1)))
}

fn find_member(members: &Vec<(String, serde_json::Value)>, key: &str) -> (r: usize)
    ensures
        r <= members@.len(),
        r == member_place(member_trees(members@), key@),
{
    let ghost trees = member_trees(members@);
    let mut i: usize = 0;
    while i < members.len()
        invariant
            trees == member_trees(members@),
            i <= members@.len(),
            forall|k: int| 0 <= k < i ==> (#[trigger] trees[k]).0 != key@,
        decreases members@.len() - i,
    {
        assert(trees[i as int] == (members@[i as int].0@, value_tree(members@[i as int].1)));
        if same_text(members[i].0.as_str(), key) {
            proof {
                lemma_member_place(trees, key@, i as int);
            }
            return i;
        }
        i += 1;
    }
    proof {
        lemma_member_place(trees, key@, i as int);
    }
    i
}

fn show_member(members: &Vec<(String, serde_json::Value)>, key: &str) -> (r: String)
    ensures
        r@ == shown(JsonTree::Object(member_trees(members@)), key@),
{
    let at = find_member(members, key);
    if at < members.len() {
        write_value(&members[at].1)
    } else {
        "null".to_owned()
    }
}

/// What the log shows of a message.
pub fn digest_of(value: serde_json::Value) -> (r: Digest)
    ensures
        is_digest_of(r, value_tree(value)),
{
    match open_value(value) {
        Layer::Object(members) => {
            let mut members = members;
            assert(value_tree(value) == JsonTree::Object(member_trees(members@)));
            let block_number = show_member(&members, "block_number");
            let log_index = show_member(&members, "log_index");
            let checksum = show_member(&members, "checksum");
            let at = find_member(&members, "channel");
            let channel = if at < members.len() {
                let (_, found) = members.remove(at);
                match Json::from_value(found) {
                    Json::Text(s) => s,
                    _ => "?".to_owned(),
                }
            } else {
                "?".to_owned()
            };
            Digest { channel, block_number, log_index, checksum }
        },
        _ => Digest {
            channel: "?".to_owned(),
            block_number: "null".to_owned(),
            log_index: "null".to_owned(),
            checksum: "null".to_owned(),
        },
    }
}

/// What the log shows of a text that is a message; `None` of any other.
pub fn read_digest(text: &str) -> (r: Option<Digest>)
    ensures
        match r {
            Some(d) => document(text@) is Some && is_digest_of(d, document(text@)->0),
            None => document(text@) is None,
        },
{
    match parse_value(text) {
        Ok(v) => Some(digest_of(v)),
        Err(_) => None,
    }
}

/// The member of an object with a key is the first that has it; without one, and
/// in what is no object, there is none.
pub proof fn law_member(members: Seq<(Seq<char>, JsonTree)>, key: Seq<char>, at: int)
    requires
        0 <= at <= members.len(),
        forall|k: int| 0 <= k < at ==> (#[trigger] members[k]).0 != key,
        at < members.len() ==> members[at].0 == key,
    ensures
        at < members.len() ==> member(JsonTree::Object(members), key) == Some(members[at].1),
        at == members.len() ==> member(JsonTree::Object(members), key) is None,
        forall|tree: JsonTree| !(tree is Object) ==> #[trigger] member(tree, key) is None,
{
    lemma_member_place(members, key, at);
}

/// An id is written as a number or as the decimal text of one, and is the same
/// either way, as far as it fits in sixty-four bits; nothing else is an id. The
/// market id of an order is the low thirty-two bits of such a number, or a text
/// that fits in them.
pub proof fn law_ids(value: Option<u64>, text: Seq<char>, n: nat, tree: JsonTree)
    ensures
        id_of(JsonTree::Number(value, text)) == value,
        number_of(JsonTree::Number(value, text)) == value,
        n <= u64::MAX ==> id_of(JsonTree::Text(decimal_text(n))) == Some(n as u64),
        n > u64::MAX ==> id_of(JsonTree::Text(decimal_text(n))) is None,
        id_of(JsonTree::Text(text)) == (match unsigned_value(text) {
            Some(k) => if k < 0x1_0000_0000_0000_0000 {
                Some(k as u64)
            } else {
                None
            },
            None => None,
        }),
        order_market_id_of(JsonTree::Text(text)) == (match unsigned_value(text) {
            Some(k) => if k < 0x1_0000_0000 {
                Some(k as u32)
            } else {
                None
            },
            None => None,
        }),
        !(tree is Number) && !(tree is Text) ==> id_of(tree) is None && order_market_id_of(
            tree,
        ) is None,
        !(tree is Number) ==> number_of(tree) is None,
        value is Some ==> order_market_id_of(JsonTree::Number(value, text)) == Some(
            (value->0 % 0x1_0000_0000) as u32,
        ),
        value is None ==> order_market_id_of(JsonTree::Number(value, text)) is None,
        n < 0x1_0000_0000 ==> order_market_id_of(JsonTree::Text(decimal_text(n))) == Some(
            n as u32,
        ),
        n >= 0x1_0000_0000 ==> order_market_id_of(JsonTree::Text(decimal_text(n))) is None,
{
    law_unsigned_round_trip(n);
}

/// A level is an object whose price and quantity are texts, or a list of just
/// those two texts; what is anything else is none.
pub proof fn law_level(tree: JsonTree, price: Seq<char>, quantity: Seq<char>)
    ensures
        tree is Object && member(tree, "price"@) == Some(JsonTree::Text(price)) && member(
            tree,
            "quantity"@,
        ) == Some(JsonTree::Text(quantity)) ==> level_of(tree) == Some(
            LevelView { price, quantity },
        ),
        tree is Object && level_of(tree) is Some ==> member(tree, "price"@) is Some && member(
            tree,
            "price"@,
        )->0 is Text && member(tree, "quantity"@) is Some && member(tree, "quantity"@)->0 is Text,
        level_of(JsonTree::Array(seq![JsonTree::Text(price), JsonTree::Text(quantity)])) == Some(
            LevelView { price, quantity },
        ),
        tree is Array && level_of(tree) is Some ==> tree->Array_0.len() == 2
            && tree->Array_0[0] is Text && tree->Array_0[1] is Text,
        !(tree is Object) && !(tree is Array) ==> level_of(tree) is None,
{
}

/// The levels under a key are those of its list, one for each item and in order;
/// a list with an item that is no level has none, and so has what is no list.
pub proof fn law_levels(tree: JsonTree, key: Seq<char>, items: Seq<JsonTree>, bad: int)
    requires
        member(tree, key) == Some(JsonTree::Array(items)),
    ensures
        (forall|i: int| 0 <= i < items.len() ==> level_of(#[trigger] items[i]) is Some) ==> {
            &&& levels_under(tree, key).len() == items.len()
            &&& forall|i: int|
                0 <= i < items.len() ==> Some(#[trigger] levels_under(tree, key)[i]) == level_of(
                    items[i],
                )
        },
        0 <= bad < items.len() && level_of(items[bad]) is None ==> levels_under(tree, key).len()
            == 0,
        forall|other: JsonTree|
            !(member(other, key) is Some && member(other, key)->0 is Array) ==> (
            #[trigger] levels_under(other, key)).len() == 0,
{
    if 0 <= bad < items.len() && level_of(items[bad]) is None {
        assert(levels_of(items) is None);
    }
}

/// What the log shows of a message: its channel where that is a text, and
/// otherwise `?`; and the block number, the log index and the checksum as they
/// are written, or `null`.
pub proof fn law_digest_of_message(d: Digest, tree: JsonTree)
    requires
        is_digest_of(d, tree),
    ensures
        match member(tree, "channel"@) {
            Some(JsonTree::Text(s)) => d.channel@ == s,
            _ => d.channel@ == "?"@,
        },
        match member(tree, "block_number"@) {
            Some(t) => d.block_number@ == compact_text(t),
            None => d.block_number@ == "null"@,
        },
        match member(tree, "log_index"@) {
            Some(t) => d.log_index@ == compact_text(t),
            None => d.log_index@ == "null"@,
        },
        match member(tree, "checksum"@) {
            Some(t) => d.checksum@ == compact_text(t),
            None => d.checksum@ == "null"@,
        },
{
}

/// What a document holds is what it is made of.
pub proof fn law_tree(value: Option<u64>, text: String, b: bool)
    ensures
        Json::Null.tree() == JsonTree::Null,
        Json::Bool(b).tree() == JsonTree::Bool(b),
        Json::Number(value, text).tree() == JsonTree::Number(value, text@),
        Json::Text(text).tree() == JsonTree::Text(text@),
{
}

} // verus!
