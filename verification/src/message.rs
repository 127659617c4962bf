//! Messages of the order book channel, and what they say.

use vstd::prelude::*;
use vstd::utf8::{encode_utf8, is_char_boundary};

use crate::book::{level_views, LevelView, OrderbookLevel};
use crate::json::{
    id_of, levels_under, member, parse_levels, parse_market_id, Json, JsonTree,
};
use crate::text::same_text;

verus! {

/// A message as it comes over a connection.
pub struct WsMessage {
    pub method: Option<String>,
    pub msg_type: Option<String>,
    pub market_id: Option<Json>,
    pub block_number: Option<u64>,
    pub log_index: Option<u64>,
    pub checksum: Option<u32>,
    pub data: Option<Json>,
}

/// The market that a message is about: its own market id, and only where it has
/// none, that of its data.
pub open spec fn market_of(market_id: Option<JsonTree>, data: Option<JsonTree>) -> Option<u64> {
    match market_id {
        Some(t) => id_of(t),
        None => match data {
            Some(d) => match member(d, "market_id"@) {
                Some(t) => id_of(t),
                None => None,
            },
            None => None,
        },
    }
}

pub open spec fn opt_tree(v: Option<Json>) -> Option<JsonTree> {
    match v {
        Some(j) => Some(j.tree()),
        None => None,
    }
}

impl WsMessage {
    pub open spec fn market(&self) -> Option<u64> {
        market_of(opt_tree(self.market_id), opt_tree(self.data))
    }

    /// Whether the message confirms a subscription.
    pub open spec fn confirms(&self) -> bool {
        self.method matches Some(m) && m@ == "subscribe"@
    }

    /// The method of a message, or else its type.
    pub open spec fn method_or_type(&self) -> Seq<char> {
        match self.method {
            Some(m) => m@,
            None => match self.msg_type {
                Some(t) => t@,
                None => "unknown"@,
            },
        }
    }

    /// The method of a message.
    pub open spec fn method_text(&self) -> Seq<char> {
        match self.method {
            Some(m) => m@,
            None => "unknown"@,
        }
    }

    /// Whether the message confirms a subscription.
    pub fn is_confirmation(&self) -> (r: bool)
        ensures
            r == self.confirms(),
    {
        match &self.method {
            Some(m) => same_text(m.as_str(), "subscribe"),
            None => false,
        }
    }

    /// The method of the message.
    pub fn method_name(&self) -> (r: &str)
        ensures
            r@ == self.method_text(),
    {
        match &self.method {
            Some(m) => m.as_str(),
            None => "unknown",
        }
    }

    /// The method of the message, or else its type.
    pub fn method_or_type_name(&self) -> (r: &str)
        ensures
            r@ == self.method_or_type(),
    {
        match &self.method {
            Some(m) => m.as_str(),
            None => match &self.msg_type {
                Some(t) => t.as_str(),
                None => "unknown",
            },
        }
    }

    /// The market that the message is about.
    pub fn read_market(&self) -> (r: Option<u64>)
        ensures
            r == self.market(),
    {
        match &self.market_id {
            Some(v) => parse_market_id(v),
            None => match &self.data {
                Some(d) => match d.get("market_id") {
                    Some(v) => parse_market_id(v),
                    None => None,
                },
                None => None,
            },
        }
    }
}

/// What a message says of a market: a snapshot or an update at a place in the
/// log, the levels of both sides where it brings data, and a checksum.
pub struct Feed {
    pub market_id: u64,
    pub block_number: u64,
    pub log_index: u64,
    pub is_snapshot: bool,
    pub levels: Option<(Vec<OrderbookLevel>, Vec<OrderbookLevel>)>,
    pub checksum: Option<u32>,
}

pub struct FeedView {
    pub market_id: u64,
    pub block_number: u64,
    pub log_index: u64,
    pub is_snapshot: bool,
    pub levels: Option<(Seq<LevelView>, Seq<LevelView>)>,
    pub checksum: Option<u32>,
}

impl View for Feed {
    type V = FeedView;

    open spec fn view(&self) -> FeedView {
        FeedView {
            market_id: self.market_id,
            block_number: self.block_number,
            log_index: self.log_index,
            is_snapshot: self.is_snapshot,
            levels: match self.levels {
                Some((bids, asks)) => Some((level_views(bids@), level_views(asks@))),
                None => None,
            },
            checksum: self.checksum,
        }
    }
}

/// What a message says: nothing where it confirms a subscription, names no
/// market, or lacks its place in the log.
pub open spec fn feed_of(m: WsMessage) -> Option<FeedView> {
    if m.confirms() {
        None
    } else {
        match (m.market(), m.block_number, m.log_index) {
            (Some(market_id), Some(block_number), Some(log_index)) => Some(
                FeedView {
                    market_id,
                    block_number,
                    log_index,
                    is_snapshot: m.method_or_type() == "snapshot"@,
                    levels: match m.data {
                        Some(d) => Some(
                            (levels_under(d.tree(), "bids"@), levels_under(d.tree(), "asks"@)),
                        ),
                        None => None,
                    },
                    checksum: m.checksum,
                },
            ),
            _ => None,
        }
    }
}

/// Reads what a message says.
pub fn read_feed(m: &WsMessage) -> (r: Option<Feed>)
    ensures
        match r {
            Some(f) => feed_of(*m) == Some(f@),
            None => feed_of(*m) is None,
        },
{
    if m.is_confirmation() {
        return None;
    }
    match (m.read_market(), m.block_number, m.log_index) {
        (Some(market_id), Some(block_number), Some(log_index)) => {
            let is_snapshot = same_text(m.method_or_type_name(), "snapshot");
            let levels = match &m.data {
                Some(d) => Some((parse_levels(d, "bids"), parse_levels(d, "asks"))),
                None => None,
            };
            Some(
                Feed {
                    market_id,
                    block_number,
                    log_index,
                    is_snapshot,
                    levels,
                    checksum: m.checksum,
                },
            )
        },
        _ => None,
    }
}

/// How many bytes of a message an excerpt shows.
pub const EXCERPT_LIMIT: usize = 200;

/// How many bytes the excerpt of a text has.
pub open spec fn excerpt_len(text: Seq<char>) -> int {
    let n = encode_utf8(text).len();
    if n <= EXCERPT_LIMIT {
        n as int
    } else {
        EXCERPT_LIMIT as int
    }
}

/// The first bytes of a text; `None` where they end inside a character.
pub fn excerpt(text: &str) -> (r: Option<&str>)
    ensures
        match r {
            Some(s) => {
                &&& is_char_boundary(encode_utf8(text@), excerpt_len(text@))
                &&& encode_utf8(s@) == encode_utf8(text@).take(excerpt_len(text@))
            },
            None => !is_char_boundary(encode_utf8(text@), excerpt_len(text@)),
        },
{
    let n: usize = if text.as_bytes().len() <= EXCERPT_LIMIT {
        text.as_bytes().len()
    } else {
        EXCERPT_LIMIT
    };
    if text.is_char_boundary(n) {
        Some(text.split_at(n).0)
    } else {
        None
    }
}

/// A text within the limit is shown whole.
pub proof fn law_short_text_is_shown_whole(text: Seq<char>)
    requires
        encode_utf8(text).len() <= EXCERPT_LIMIT,
    ensures
        is_char_boundary(encode_utf8(text), excerpt_len(text)),
        encode_utf8(text).take(excerpt_len(text)) == encode_utf8(text),
{
    vstd::utf8::encode_utf8_valid_utf8(text);
    vstd::utf8::is_char_boundary_start_end_of_seq(encode_utf8(text));
    assert(encode_utf8(text).take(excerpt_len(text)) =~= encode_utf8(text));
}

/// What a message says is what stands in it: a confirmation of a subscription
/// says nothing, nor does a message without a market, a block number or a log
/// index. Any other says its market, its place and its checksum; whether it is a
/// snapshot, by its method, or its type where it has no method; and the bids and
/// asks of its data, where it has data.
pub proof fn law_feed(m: WsMessage)
    ensures
        m.method is Some && m.method->0@ == "subscribe"@ ==> feed_of(m) is None,
        m.market() is None || m.block_number is None || m.log_index is None ==> feed_of(m) is None,
        feed_of(m) is None ==> {
            ||| m.method is Some && m.method->0@ == "subscribe"@
            ||| m.market() is None
            ||| m.block_number is None
            ||| m.log_index is None
        },
        feed_of(m) matches Some(f) ==> {
            &&& m.market() == Some(f.market_id)
            &&& m.block_number == Some(f.block_number)
            &&& m.log_index == Some(f.log_index)
            &&& f.checksum == m.checksum
            &&& f.is_snapshot == (if m.method is Some {
                m.method->0@ == "snapshot"@
            } else {
                m.msg_type is Some && m.msg_type->0@ == "snapshot"@
            })
            &&& f.levels is Some == m.data is Some
            &&& m.data is Some ==> (f.levels->0).0 == levels_under(m.data->0.tree(), "bids"@)
            &&& m.data is Some ==> (f.levels->0).1 == levels_under(m.data->0.tree(), "asks"@)
        },
{
    reveal_strlit("unknown");
    reveal_strlit("snapshot");
    assert("unknown"@.len() != "snapshot"@.len());
}

/// A message is about the market that its own market id names; only where it has
/// no market id at all does that of its data count.
pub proof fn law_market(m: WsMessage)
    ensures
        m.market_id is Some ==> m.market() == id_of(m.market_id->0.tree()),
        m.market_id is None && m.data is None ==> m.market() is None,
        m.market_id is None && m.data is Some ==> m.market() == (match member(
            m.data->0.tree(),
            "market_id"@,
        ) {
            Some(t) => id_of(t),
            None => None,
        }),
        m.method is None ==> m.method_text() == "unknown"@,
        m.method is Some ==> m.method_text() == m.method->0@ && m.method_or_type()
            == m.method->0@,
        m.confirms() == (m.method is Some && m.method->0@ == "subscribe"@),
{
}

/// An excerpt has as many bytes as the text, or two hundred where that is less.
pub proof fn law_excerpt_length(text: Seq<char>)
    ensures
        encode_utf8(text).len() >= 200 ==> excerpt_len(text) == 200,
        encode_utf8(text).len() < 200 ==> excerpt_len(text) == encode_utf8(text).len(),
{
}

/// What a feed shows is what its fields hold.
pub proof fn law_feed_shows_its_fields(f: Feed)
    ensures
        f@.market_id == f.market_id,
        f@.block_number == f.block_number,
        f@.log_index == f.log_index,
        f@.is_snapshot == f.is_snapshot,
        f@.checksum == f.checksum,
        f@.levels is Some == f.levels is Some,
        f.levels is Some ==> (f@.levels->0).0 == level_views((f.levels->0).0@) && (
        f@.levels->0).1 == level_views((f.levels->0).1@),
{
}

/// A message without a method goes by its type, and without either as unknown.
pub proof fn law_method_or_type(m: WsMessage)
    requires
        m.method is None,
    ensures
        m.msg_type is Some ==> m.method_or_type() == m.msg_type->0@,
        m.msg_type is None ==> m.method_or_type() == "unknown"@,
{
}

} // verus!
