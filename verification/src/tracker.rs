//! The tracker of one connection: where each market is in the log, and whether
//! an update goes back.

use vstd::prelude::*;

use crate::message::WsMessage;
use crate::stream::{law_sequence_order, sequence};
use crate::table::{total, Record, Table};
use crate::text::same_text;

verus! {

/// Where a market is in the log, how many messages took it there, and the last
/// of them.
pub struct MarketState {
    pub block_number: u64,
    pub log_index: u64,
    pub msg_count: u64,
    pub last_method: String,
    pub last_raw: String,
}

pub struct StateView {
    pub block_number: u64,
    pub log_index: u64,
    pub msg_count: nat,
    pub last_method: Seq<char>,
    pub last_raw: Seq<char>,
}

impl View for MarketState {
    type V = StateView;

    open spec fn view(&self) -> StateView {
        StateView {
            block_number: self.block_number,
            log_index: self.log_index,
            msg_count: self.msg_count as nat,
            last_method: self.last_method@,
            last_raw: self.last_raw@,
        }
    }
}

impl Record for MarketState {
    open spec fn sound(&self) -> bool {
        true
    }
}

/// Whether a place in the log comes before another.
pub open spec fn comes_before(
    block_number: u64,
    log_index: u64,
    other_block: u64,
    other_index: u64,
) -> bool {
    block_number < other_block || (block_number == other_block && log_index < other_index)
}

/// What a message is to the tracker.
pub enum Event {
    /// The text is no message.
    Unreadable,
    /// The message confirms the subscription.
    Confirmation,
    /// The message names no market.
    NoMarket,
    /// The message lacks its place in the log.
    NoPlace { market_id: u64 },
    /// A snapshot, taken in.
    Snapshot { market_id: u64, block_number: u64, log_index: u64 },
    /// An update, taken in.
    Update { market_id: u64, block_number: u64, log_index: u64 },
    /// An update that goes back behind the place where its market is.
    Rollback {
        market_id: u64,
        block_number: u64,
        log_index: u64,
        prev_block: u64,
        prev_log_index: u64,
    },
}

#[verifier::ext_equal]
pub struct TrackerView {
    pub states: Map<u64, StateView>,
    pub msg_seq: nat,
    pub snapshot_count: nat,
    pub update_count: nat,
}

impl TrackerView {
    pub open spec fn empty() -> TrackerView {
        TrackerView { states: Map::empty(), msg_seq: 0, snapshot_count: 0, update_count: 0 }
    }

    /// Every message that counts was received.
    pub open spec fn valid(self) -> bool {
        self.snapshot_count + self.update_count <= self.msg_seq
    }

    /// What a message is, `None` being a text that is no message.
    pub open spec fn event(self, message: Option<WsMessage>) -> Event {
        match message {
            None => Event::Unreadable,
            Some(m) => if m.confirms() {
                Event::Confirmation
            } else {
                match m.market() {
                    None => Event::NoMarket,
                    Some(market_id) => match (m.block_number, m.log_index) {
                        (Some(block_number), Some(log_index)) => if m.method_text()
                            == "snapshot"@ {
                            Event::Snapshot { market_id, block_number, log_index }
                        } else if self.goes_back(market_id, block_number, log_index) {
                            Event::Rollback {
                                market_id,
                                block_number,
                                log_index,
                                prev_block: self.states[market_id].block_number,
                                prev_log_index: self.states[market_id].log_index,
                            }
                        } else {
                            Event::Update { market_id, block_number, log_index }
                        },
                        _ => Event::NoPlace { market_id },
                    },
                }
            },
        }
    }

    /// Whether a place comes before the one where its market is.
    pub open spec fn goes_back(self, market_id: u64, block_number: u64, log_index: u64) -> bool {
        self.states.dom().contains(market_id) && comes_before(
            block_number,
            log_index,
            self.states[market_id].block_number,
            self.states[market_id].log_index,
        )
    }

    /// The states with a market moved to a place.
    pub open spec fn moved(
        self,
        market_id: u64,
        block_number: u64,
        log_index: u64,
        method: Seq<char>,
        raw: Seq<char>,
    ) -> Map<u64, StateView> {
        let count: nat = if self.states.dom().contains(market_id) {
            self.states[market_id].msg_count
        } else {
            0
        };
        self.states.insert(
            market_id,
            StateView {
                block_number,
                log_index,
                msg_count: count + 1,
                last_method: method,
                last_raw: raw,
            },
        )
    }

    /// The tracker after a text, with the message that it is.
    pub open spec fn after(self, text: Seq<char>, message: Option<WsMessage>) -> TrackerView {
        let counted = TrackerView { msg_seq: self.msg_seq + 1, ..self };
        match self.event(message) {
            Event::Snapshot { market_id, block_number, log_index } => TrackerView {
                snapshot_count: self.snapshot_count + 1,
                states: self.moved(
                    market_id,
                    block_number,
                    log_index,
                    message->0.method_text(),
                    text,
                ),
                ..counted
            },
            Event::Update { market_id, block_number, log_index } => TrackerView {
                update_count: self.update_count + 1,
                states: self.moved(
                    market_id,
                    block_number,
                    log_index,
                    message->0.method_text(),
                    text,
                ),
                ..counted
            },
            Event::Rollback { .. } => TrackerView {
                update_count: self.update_count + 1,
                ..counted
            },
            _ => counted,
        }
    }
}

/// The tracker.
pub struct Tracker {
    pub states: Table<MarketState>,
    pub msg_seq: u64,
    pub snapshot_count: u64,
    pub update_count: u64,
}

impl View for Tracker {
    type V = TrackerView;

    open spec fn view(&self) -> TrackerView {
        TrackerView {
            states: self.states@,
            msg_seq: self.msg_seq as nat,
            snapshot_count: self.snapshot_count as nat,
            update_count: self.update_count as nat,
        }
    }
}

pub open spec fn message_count() -> spec_fn(MarketState) -> nat {
    |s: MarketState| s.msg_count as nat
}

impl Tracker {
    /// The table is well formed, and no more messages moved the markets than
    /// were counted.
    pub open spec fn wf(&self) -> bool {
        &&& self@.valid()
        &&& self.states.wf()
        &&& total(self.states.entries@, message_count()) <= self.snapshot_count
            + self.update_count
    }

    pub fn new() -> (r: Self)
        ensures
            r.wf(),
            r@ == TrackerView::empty(),
            r.states.entries@.len() == 0,
            r.msg_seq == 0,
            r.snapshot_count == 0,
            r.update_count == 0,
    {
        Tracker { states: Table::new(), msg_seq: 0, snapshot_count: 0, update_count: 0 }
    }

    /// Takes a text that came over the connection, with the message that it is.
    pub fn on_message(&mut self, text: &str, message: Option<&WsMessage>) -> (r: Event)
        requires
            old(self).wf(),
            old(self).msg_seq < u64::MAX,
        ensures
            final(self).wf(),
            final(self)@ == old(self)@.after(text@, given(message)),
            r == old(self)@.event(given(message)),
    {
        let ghost before = self@;
        self.msg_seq += 1;
        let m = match message {
            Some(m) => m,
            None => {
                return Event::Unreadable;
            },
        };
        if m.is_confirmation() {
            return Event::Confirmation;
        }
        let method = m.method_name();
        let market_id = match m.read_market() {
            Some(id) => id,
            None => {
                return Event::NoMarket;
            },
        };
        let (block_number, log_index) = match (m.block_number, m.log_index) {
            (Some(b), Some(l)) => (b, l),
            _ => {
                return Event::NoPlace { market_id };
            },
        };
        let is_snapshot = same_text(method, "snapshot");
        if is_snapshot {
            self.snapshot_count += 1;
        } else {
            self.update_count += 1;
        }
        if !is_snapshot {
            if let Some(prev) = self.states.get(market_id) {
                let rollback = block_number < prev.block_number || (block_number
                    == prev.block_number && log_index < prev.log_index);
                if rollback {
                    return Event::Rollback {
                        market_id,
                        block_number,
                        log_index,
                        prev_block: prev.block_number,
                        prev_log_index: prev.log_index,
                    };
                }
            }
        }
        let ghost entries = self.states.entries@;
        let msg_count: u64 = match self.states.take(market_id) {
            Some(s) => s.msg_count,
            None => 0,
        };
        proof {
            assert(total(entries, message_count()) == total(
                self.states.entries@,
                message_count(),
            ) + msg_count);
        }
        let next = MarketState {
            block_number,
            log_index,
            msg_count: msg_count + 1,
            last_method: method.to_owned(),
            last_raw: text.to_owned(),
        };
        let ghost rest = self.states.entries@;
        self.states.put(market_id, next);
        proof {
            assert(total(self.states.entries@, message_count()) == total(rest, message_count())
                + next.msg_count);
            assert(self.states@ =~= before.moved(
                market_id,
                block_number,
                log_index,
                m.method_text(),
                text@,
            ));
        }
        if is_snapshot {
            Event::Snapshot { market_id, block_number, log_index }
        } else {
            Event::Update { market_id, block_number, log_index }
        }
    }
}

pub open spec fn given(message: Option<&WsMessage>) -> Option<WsMessage> {
    match message {
        Some(m) => Some(*m),
        None => None,
    }
}

/// A market goes back exactly where the sequence number of an update is below
/// that of the place where the market is.
pub proof fn law_rollback_by_sequence(v: TrackerView, market_id: u64, block: u64, index: u64)
    requires
        v.states.dom().contains(market_id),
    ensures
        v.goes_back(market_id, block, index) == (sequence(block as nat, index as nat) < sequence(
            v.states[market_id].block_number as nat,
            v.states[market_id].log_index as nat,
        )),
{
    law_sequence_order(
        block,
        index,
        v.states[market_id].block_number,
        v.states[market_id].log_index,
    );
}

/// An update never takes a market back: whatever comes that is no snapshot, the
/// market is afterwards where it was or further on.
pub proof fn law_updates_go_on(
    v: TrackerView,
    text: Seq<char>,
    message: Option<WsMessage>,
    market_id: u64,
)
    requires
        v.states.dom().contains(market_id),
        !(v.event(message) is Snapshot),
    ensures
        v.after(text, message).states.dom().contains(market_id),
        !comes_before(
            v.after(text, message).states[market_id].block_number,
            v.after(text, message).states[market_id].log_index,
            v.states[market_id].block_number,
            v.states[market_id].log_index,
        ),
{
}

/// A text that is not taken in, an update that goes back among them, leaves
/// every market as it was.
pub proof fn law_refused_leaves_states(v: TrackerView, text: Seq<char>, message: Option<WsMessage>)
    requires
        !(v.event(message) is Snapshot),
        !(v.event(message) is Update),
    ensures
        v.after(text, message).states == v.states,
{
}

/// A message about one market leaves every other market as it was.
pub proof fn law_other_markets_stay(
    v: TrackerView,
    text: Seq<char>,
    message: WsMessage,
    other: u64,
)
    requires
        message.market() != Some(other),
    ensures
        v.after(text, Some(message)).states.dom().contains(other) == v.states.dom().contains(
            other,
        ),
        v.states.dom().contains(other) ==> v.after(text, Some(message)).states[other]
            == v.states[other],
{
}

/// What a message with a market and a place is: a snapshot by its method, else
/// an update, and one that goes back exactly where its market is known and at a
/// later place: at a higher block, or at the same block and a higher log index.
pub proof fn law_events(v: TrackerView, m: WsMessage, id: u64, block: u64, index: u64)
    requires
        !(m.method is Some && m.method->0@ == "subscribe"@),
        m.market() == Some(id),
        m.block_number == Some(block),
        m.log_index == Some(index),
    ensures
        ({
            let is_snapshot = m.method is Some && m.method->0@ == "snapshot"@;
            let back = v.states.dom().contains(id) && (block < v.states[id].block_number || (block
                == v.states[id].block_number && index < v.states[id].log_index));
            &&& is_snapshot ==> v.event(Some(m)) == (Event::Snapshot {
                market_id: id,
                block_number: block,
                log_index: index,
            })
            &&& !is_snapshot && !back ==> v.event(Some(m)) == (Event::Update {
                market_id: id,
                block_number: block,
                log_index: index,
            })
            &&& !is_snapshot && back ==> v.event(Some(m)) == (Event::Rollback {
                market_id: id,
                block_number: block,
                log_index: index,
                prev_block: v.states[id].block_number,
                prev_log_index: v.states[id].log_index,
            })
        }),
{
    reveal_strlit("unknown");
    reveal_strlit("snapshot");
    assert("unknown"@.len() != "snapshot"@.len());
}

/// What any other text is: not a message, a confirmation, a message without a
/// market, or one without a place.
pub proof fn law_passed_over(v: TrackerView, m: WsMessage)
    ensures
        v.event(None) is Unreadable,
        (v.event(Some(m)) is Confirmation) == (m.method is Some && m.method->0@ == "subscribe"@),
        (v.event(Some(m)) is NoMarket) == (!(v.event(Some(m)) is Confirmation)
            && m.market() is None),
        (v.event(Some(m)) is NoPlace) == (!(v.event(Some(m)) is Confirmation)
            && m.market() is Some && (m.block_number is None || m.log_index is None)),
        v.event(Some(m)) is NoPlace ==> m.market() == Some(v.event(Some(m))->NoPlace_market_id),
        !(v.event(Some(m)) is Unreadable),
{
}

/// A snapshot or an update that does not go back moves its market to its place,
/// with one message more, its method and its text.
pub proof fn law_market_moves(
    v: TrackerView,
    text: Seq<char>,
    m: WsMessage,
    id: u64,
    block: u64,
    index: u64,
)
    requires
        v.event(Some(m)) == (Event::Snapshot {
            market_id: id,
            block_number: block,
            log_index: index,
        }) || v.event(Some(m)) == (Event::Update {
            market_id: id,
            block_number: block,
            log_index: index,
        }),
    ensures
        ({
            let s = v.after(text, Some(m)).states[id];
            &&& v.after(text, Some(m)).states.dom() == v.states.dom().insert(id)
            &&& s.block_number == block
            &&& s.log_index == index
            &&& s.last_raw == text
            &&& s.last_method == (if m.method is Some {
                m.method->0@
            } else {
                "unknown"@
            })
            &&& s.msg_count == (if v.states.dom().contains(id) {
                v.states[id].msg_count + 1
            } else {
                1
            })
        }),
{
}

/// Every text counts as one, a snapshot also as a snapshot, and an update also as
/// an update, whether it goes back or not.
pub proof fn law_tracker_counts(v: TrackerView, text: Seq<char>, message: Option<WsMessage>)
    ensures
        ({
            let w = v.after(text, message);
            let e = v.event(message);
            &&& w.msg_seq == v.msg_seq + 1
            &&& w.snapshot_count == v.snapshot_count + (if e is Snapshot {
                1int
            } else {
                0int
            })
            &&& w.update_count == v.update_count + (if e is Update || e is Rollback {
                1int
            } else {
                0int
            })
        }),
{
}

/// What the tracker shows is what its fields hold.
pub proof fn law_tracker_shows_its_fields(t: Tracker, s: MarketState)
    ensures
        t@.msg_seq == t.msg_seq,
        t@.snapshot_count == t.snapshot_count,
        t@.update_count == t.update_count,
        t@.states == t.states@,
        s@.block_number == s.block_number,
        s@.log_index == s.log_index,
        s@.msg_count == s.msg_count,
        s@.last_method == s.last_method@,
        s@.last_raw == s.last_raw@,
{
}

/// A text is tracked as the message that it is, and one that is none as none.
pub proof fn law_given(m: WsMessage)
    ensures
        given(Some(&m)) == Some(m),
        given(None) is None,
{
}

} // verus!
