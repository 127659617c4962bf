//! The monitor of the update streams of all markets.
//!
//! Several connections deliver the same updates. The monitor drops repeats
//! market by market, halts when a market goes back, and holds the book of each
//! market against the checksums that come with its updates.

use std::collections::VecDeque;

use vstd::prelude::*;

use crate::book::{side_levels, LevelView, MarketBook, MarketBookView};
use crate::checksum::{all_fit, book_checksum, checksum_fields, try_checksum};
use crate::message::{feed_of, read_feed, Feed, FeedView, WsMessage};
use crate::stream::{
    concat_block_and_log_index, law_stream_stays_valid, lemma_newest_push, newest, sequence,
    MarketStream, StreamView,
};
use crate::table::{lemma_total_take, total, Record, Table};
use crate::text::{decimal_string, decimal_text, digits_value, law_decimal_text};

verus! {

/// How many connections deliver updates.
pub const NUM_CONNECTIONS: usize = 10;

/// How many updates the monitor remembers.
pub const RING_BUFFER_SIZE: usize = 200;

/// After how many new updates the monitor reports its progress.
pub const PROGRESS_STEP: u64 = 100;

impl Record for MarketStream {
    open spec fn sound(&self) -> bool {
        self.wf()
    }
}

impl Record for MarketBook {
    open spec fn sound(&self) -> bool {
        self.wf()
    }
}

/// An update that the monitor remembers.
pub struct RecentMsg {
    pub conn_id: usize,
    pub market_id: u64,
    pub block_number: u64,
    pub log_index: u64,
    pub seq: String,
    pub checksum: Option<u32>,
    pub deduped: bool,
}

pub struct RecentView {
    pub conn_id: usize,
    pub market_id: u64,
    pub block_number: u64,
    pub log_index: u64,
    pub seq: Seq<char>,
    pub checksum: Option<u32>,
    pub deduped: bool,
}

impl View for RecentMsg {
    type V = RecentView;

    open spec fn view(&self) -> RecentView {
        RecentView {
            conn_id: self.conn_id,
            market_id: self.market_id,
            block_number: self.block_number,
            log_index: self.log_index,
            seq: self.seq@,
            checksum: self.checksum,
            deduped: self.deduped,
        }
    }
}

impl RecentMsg {
    fn duplicate(&self) -> (r: RecentMsg)
        ensures
            r@ == self@,
    {
        RecentMsg {
            conn_id: self.conn_id,
            market_id: self.market_id,
            block_number: self.block_number,
            log_index: self.log_index,
            seq: self.seq.clone(),
            checksum: self.checksum,
            deduped: self.deduped,
        }
    }
}

/// The remembered updates with one more at the end; the oldest leaves where
/// the limit is passed.
pub open spec fn remembered(ring: Seq<RecentView>, m: RecentView) -> Seq<RecentView> {
    if ring.len() < RING_BUFFER_SIZE {
        ring.push(m)
    } else {
        ring.push(m).skip(1)
    }
}

/// The new update of a market that has `n` later ones of it among those
/// remembered.
pub open spec fn new_from_end(ring: Seq<RecentView>, market_id: u64, n: nat) -> Option<RecentView>
    decreases ring.len(),
{
    if ring.len() == 0 {
        None
    } else {
        let last = ring.last();
        if last.market_id == market_id && last.deduped {
            if n == 0 {
                Some(last)
            } else {
                new_from_end(ring.drop_last(), market_id, (n - 1) as nat)
            }
        } else {
            new_from_end(ring.drop_last(), market_id, n)
        }
    }
}

/// What the monitor knows.
#[verifier::ext_equal]
pub struct MonitorView {
    pub streams: Map<u64, StreamView>,
    pub books: Map<u64, MarketBookView>,
    pub recent: Seq<RecentView>,
    pub msg_seq: nat,
    pub snapshot_count: nat,
    pub update_count: nat,
    pub total_deduped: nat,
    pub total_duplicates: nat,
    pub checksum_ok: nat,
    pub checksum_fail: nat,
    pub halted: bool,
}

/// The sequence number of what a message says.
pub open spec fn feed_sequence(feed: FeedView) -> u128 {
    sequence(feed.block_number as nat, feed.log_index as nat) as u128
}

/// The book of a market after a message with data.
pub open spec fn book_after(book: MarketBookView, feed: FeedView) -> MarketBookView {
    match feed.levels {
        Some((bids, asks)) => if feed.is_snapshot {
            MarketBookView::snapshot(bids, asks)
        } else {
            book.after_update(bids, asks)
        },
        None => book,
    }
}

/// Whether the amounts of a book can be summed.
pub open spec fn summable(book: MarketBookView) -> bool {
    all_fit(checksum_fields(side_levels(book.bids), side_levels(book.asks)))
}

/// The checksum of both sides of a book.
pub open spec fn market_checksum(book: MarketBookView) -> u32 {
    book_checksum(side_levels(book.bids), side_levels(book.asks))
}

impl MonitorView {
    pub open spec fn empty() -> MonitorView {
        MonitorView {
            streams: Map::empty(),
            books: Map::empty(),
            recent: Seq::empty(),
            msg_seq: 0,
            snapshot_count: 0,
            update_count: 0,
            total_deduped: 0,
            total_duplicates: 0,
            checksum_ok: 0,
            checksum_fail: 0,
            halted: false,
        }
    }

    /// Every update was new or a repeat, every message that counts was
    /// received, no update was checked twice, and no more updates are
    /// remembered than the limit.
    pub open spec fn valid(self) -> bool {
        &&& self.total_deduped + self.total_duplicates == self.update_count
        &&& self.update_count + self.snapshot_count <= self.msg_seq
        &&& self.checksum_ok + self.checksum_fail <= self.update_count
        &&& self.recent.len() <= RING_BUFFER_SIZE
        &&& forall|id: u64| #[trigger] self.streams.dom().contains(id) ==> self.streams[id].valid()
    }

    /// The stream of a market, empty before its first update.
    pub open spec fn stream(self, id: u64) -> StreamView {
        if self.streams.dom().contains(id) {
            self.streams[id]
        } else {
            StreamView::empty()
        }
    }

    /// The book of a market, empty before its first message.
    pub open spec fn book(self, id: u64) -> MarketBookView {
        if self.books.dom().contains(id) {
            self.books[id]
        } else {
            MarketBookView::empty()
        }
    }

    pub open spec fn counted(self) -> MonitorView {
        MonitorView { msg_seq: self.msg_seq + 1, ..self }
    }

    /// Whether a message changes the book: only the first connection's do, and
    /// only those with data.
    pub open spec fn changes_book(conn_id: usize, feed: FeedView) -> bool {
        conn_id == 0 && feed.levels is Some
    }

    pub open spec fn with_book(self, feed: FeedView) -> MonitorView {
        MonitorView {
            books: self.books.insert(
                feed.market_id,
                book_after(self.book(feed.market_id), feed),
            ),
            ..self
        }
    }

    /// Whether a message has its checksum held against the book.
    pub open spec fn is_checked(conn_id: usize, feed: FeedView) -> bool {
        Self::changes_book(conn_id, feed) && !feed.is_snapshot && feed.checksum is Some
    }

    /// Whether the checksum cannot be held against the book, since an amount
    /// of the book does not fit.
    pub open spec fn is_unsummable(self, conn_id: usize, feed: FeedView) -> bool {
        Self::is_checked(conn_id, feed) && !summable(
            book_after(self.book(feed.market_id), feed),
        )
    }

    /// The monitor after a message has reached the book.
    pub open spec fn validated(self, conn_id: usize, feed: FeedView) -> MonitorView {
        if !Self::changes_book(conn_id, feed) {
            self
        } else {
            let next = self.with_book(feed);
            if !Self::is_checked(conn_id, feed) || self.is_unsummable(conn_id, feed) {
                next
            } else if market_checksum(next.book(feed.market_id)) == feed.checksum->0 {
                MonitorView { checksum_ok: next.checksum_ok + 1, ..next }
            } else {
                MonitorView { checksum_fail: next.checksum_fail + 1, ..next }
            }
        }
    }

    /// What is remembered of an update.
    pub open spec fn record(self, conn_id: usize, feed: FeedView) -> RecentView {
        let seq = feed_sequence(feed);
        RecentView {
            conn_id,
            market_id: feed.market_id,
            block_number: feed.block_number,
            log_index: feed.log_index,
            seq: decimal_text(seq as nat),
            checksum: feed.checksum,
            deduped: self.stream(feed.market_id).is_new(seq),
        }
    }

    /// Whether a message is an update that reaches the stream of its market.
    pub open spec fn is_update(self, conn_id: usize, feed: Option<FeedView>) -> bool {
        &&& !self.halted
        &&& feed matches Some(f)
        &&& !f.is_snapshot
        &&& !self.is_unsummable(conn_id, f)
    }

    /// The monitor after an update has reached the stream of its market.
    pub open spec fn streamed(self, conn_id: usize, feed: FeedView) -> MonitorView {
        let seq = feed_sequence(feed);
        let stream = self.stream(feed.market_id);
        let is_new = stream.is_new(seq);
        MonitorView {
            streams: self.streams.insert(feed.market_id, stream.after(seq)),
            recent: remembered(self.recent, self.record(conn_id, feed)),
            update_count: self.update_count + 1,
            total_deduped: if is_new {
                self.total_deduped + 1
            } else {
                self.total_deduped
            },
            total_duplicates: if is_new {
                self.total_duplicates
            } else {
                self.total_duplicates + 1
            },
            halted: self.halted || stream.is_rollback(seq),
            ..self
        }
    }

    /// The monitor after one more message on a connection, `None` being one
    /// that says nothing.
    pub open spec fn after(self, conn_id: usize, feed: Option<FeedView>) -> MonitorView {
        if self.halted {
            self
        } else {
            match feed {
                None => self.counted(),
                Some(f) => {
                    let next = self.counted().validated(conn_id, f);
                    if self.is_unsummable(conn_id, f) {
                        next
                    } else if f.is_snapshot {
                        MonitorView { snapshot_count: next.snapshot_count + 1, ..next }
                    } else {
                        next.streamed(conn_id, f)
                    }
                },
            }
        }
    }

    /// The monitor after a list of messages, each with its connection.
    pub open spec fn after_all(self, messages: Seq<(usize, Option<FeedView>)>) -> MonitorView
        decreases messages.len(),
    {
        if messages.len() == 0 {
            self
        } else {
            let last = messages.last();
            self.after_all(messages.drop_last()).after(last.0, last.1)
        }
    }

    /// What a list of messages gives to remember: each update that reaches the
    /// stream of its market, in order.
    pub open spec fn updates(self, messages: Seq<(usize, Option<FeedView>)>) -> Seq<RecentView>
        decreases messages.len(),
    {
        if messages.len() == 0 {
            Seq::empty()
        } else {
            let before = self.updates(messages.drop_last());
            let state = self.after_all(messages.drop_last());
            let last = messages.last();
            if state.is_update(last.0, last.1) {
                before.push(state.record(last.0, last.1->0))
            } else {
                before
            }
        }
    }
}

/// A checksum held against a book.
#[derive(Clone, Copy, Debug, PartialEq, Eq, Structural)]
pub struct Check {
    pub matched: bool,
    pub expected: u32,
    pub computed: u32,
    pub bids: usize,
    pub asks: usize,
}

/// Whether a check is what a book and the expected checksum give.
pub open spec fn is_check_of(check: Check, book: MarketBookView, expected: u32) -> bool {
    &&& check.expected == expected
    &&& check.computed == market_checksum(book)
    &&& check.matched == (check.computed == expected)
    &&& check.bids == side_levels(book.bids).len()
    &&& check.asks == side_levels(book.asks).len()
}

/// What became of the checksum of a message.
pub enum BookCheck {
    /// There was none to hold against a book.
    Unchecked,
    /// An amount of the book does not fit.
    Unsummable,
    Checked(Check),
}

/// The counts that the monitor reports while it runs.
#[derive(Clone, Copy, Debug, PartialEq, Eq, Structural)]
pub struct Progress {
    pub raw: u64,
    pub deduped: u64,
    pub dupes: u64,
    pub checksum_ok: u64,
    pub checksum_fail: u64,
}

/// Whether counts are those of the monitor.
pub open spec fn is_progress_of(p: Progress, v: MonitorView) -> bool {
    &&& p.raw == v.update_count
    &&& p.deduped == v.total_deduped
    &&& p.dupes == v.total_duplicates
    &&& p.checksum_ok == v.checksum_ok
    &&& p.checksum_fail == v.checksum_fail
}

/// What halted the monitor: the last new update of the market before the one
/// that went back, where it is remembered, and the counts.
pub struct Rollback {
    pub prev: Option<RecentMsg>,
    pub stats: Progress,
}

/// What an update did.
pub struct UpdateReport {
    pub market_id: u64,
    pub block_number: u64,
    pub log_index: u64,
    pub seq: u128,
    pub check: Option<Check>,
    pub is_new: bool,
    /// The counts, at every multiple of the progress step.
    pub progress: Option<Progress>,
    pub rollback: Option<Rollback>,
}

/// What a message did.
pub enum Outcome {
    /// The monitor has halted, and the message was not read.
    Stopped,
    /// The message says nothing of a market.
    Ignored,
    /// The book holds an amount that does not fit, so the checksum of the
    /// message cannot be held against it.
    Unsummable,
    Snapshot,
    Update(UpdateReport),
}

pub open spec fn opt_recent(m: Option<RecentMsg>) -> Option<RecentView> {
    match m {
        Some(m) => Some(m@),
        None => None,
    }
}

/// Whether a report is what an update did to the stream of its market, which
/// took the monitor from one state to the next.
pub open spec fn is_stream_report_of(
    r: UpdateReport,
    feed: FeedView,
    before: MonitorView,
    after: MonitorView,
) -> bool {
    let seq = feed_sequence(feed);
    let stream = before.stream(feed.market_id);
    &&& r.market_id == feed.market_id
    &&& r.block_number == feed.block_number
    &&& r.log_index == feed.log_index
    &&& r.seq == seq
    &&& r.is_new == stream.is_new(seq)
    &&& match r.progress {
        Some(p) => {
            &&& r.is_new
            &&& after.total_deduped % PROGRESS_STEP as nat == 0
            &&& is_progress_of(p, after)
        },
        None => !r.is_new || after.total_deduped % PROGRESS_STEP as nat != 0,
    }
    &&& match r.rollback {
        Some(b) => {
            &&& stream.is_rollback(seq)
            &&& opt_recent(b.prev) == new_from_end(after.recent, feed.market_id, 1)
            &&& is_progress_of(b.stats, after)
        },
        None => !stream.is_rollback(seq),
    }
}

/// Whether a check is what became of the checksum of a message, given the book
/// after the message.
pub open spec fn is_check_report_of(
    check: Option<Check>,
    conn_id: usize,
    feed: FeedView,
    book: MarketBookView,
) -> bool {
    match check {
        Some(c) => {
            &&& MonitorView::is_checked(conn_id, feed)
            &&& is_check_of(c, book, feed.checksum->0)
        },
        None => !MonitorView::is_checked(conn_id, feed),
    }
}

pub open spec fn received_count() -> spec_fn(MarketStream) -> nat {
    |s: MarketStream| s.total_received as nat
}

pub open spec fn deduped_count() -> spec_fn(MarketStream) -> nat {
    |s: MarketStream| s.total_deduped as nat
}

pub open spec fn duplicate_count() -> spec_fn(MarketStream) -> nat {
    |s: MarketStream| s.total_duplicates as nat
}

/// The sums over all streams of the new updates and of the repeats.
fn stream_totals(streams: &Table<MarketStream>) -> (r: (u64, u64))
    requires
        total(streams.entries@, deduped_count()) <= u64::MAX,
        total(streams.entries@, duplicate_count()) <= u64::MAX,
    ensures
        r.0 == total(streams.entries@, deduped_count()),
        r.1 == total(streams.entries@, duplicate_count()),
{
    let ghost entries = streams.entries@;
    let mut deduped: u64 = 0;
    let mut dupes: u64 = 0;
    let mut i: usize = 0;
    while i < streams.entries.len()
        invariant
            entries == streams.entries@,
            total(entries, deduped_count()) <= u64::MAX,
            total(entries, duplicate_count()) <= u64::MAX,
            i <= entries.len(),
            deduped == total(entries.take(i as int), deduped_count()),
            dupes == total(entries.take(i as int), duplicate_count()),
        decreases entries.len() - i,
    {
        proof {
            lemma_total_take(entries, i + 1, deduped_count());
            lemma_total_take(entries, i + 1, duplicate_count());
            assert(entries.take(i + 1).drop_last() =~= entries.take(i as int));
            assert(entries.take(i + 1).last() == entries[i as int]);
        }
        deduped += streams.entries[i].1.total_deduped;
        dupes += streams.entries[i].1.total_duplicates;
        i += 1;
    }
    assert(entries.take(i as int) =~= entries);
    (deduped, dupes)
}

/// The monitor.
pub struct Monitor {
    pub streams: Table<MarketStream>,
    pub books: Table<MarketBook>,
    pub recent: VecDeque<RecentMsg>,
    pub msg_seq: u64,
    pub snapshot_count: u64,
    pub update_count: u64,
    pub checksum_ok: u64,
    pub checksum_fail: u64,
    pub halted: bool,
}

impl View for Monitor {
    type V = MonitorView;

    open spec fn view(&self) -> MonitorView {
        MonitorView {
            streams: self.streams@,
            books: self.books@,
            recent: self.recent@.map_values(|m: RecentMsg| m@),
            msg_seq: self.msg_seq as nat,
            snapshot_count: self.snapshot_count as nat,
            update_count: self.update_count as nat,
            total_deduped: total(self.streams.entries@, deduped_count()),
            total_duplicates: total(self.streams.entries@, duplicate_count()),
            checksum_ok: self.checksum_ok as nat,
            checksum_fail: self.checksum_fail as nat,
            halted: self.halted,
        }
    }
}

impl Monitor {
    pub open spec fn wf(&self) -> bool {
        &&& self@.valid()
        &&& self.streams.wf()
        &&& self.books.wf()
        &&& total(self.streams.entries@, received_count()) == self.update_count
    }

    pub fn new() -> (r: Self)
        ensures
            r.wf(),
            r@ == MonitorView::empty(),
            r.streams.entries@.len() == 0,
            r.books.entries@.len() == 0,
            r.recent@.len() == 0,
            r.msg_seq == 0,
            r.snapshot_count == 0,
            r.update_count == 0,
            r.checksum_ok == 0,
            r.checksum_fail == 0,
            !r.halted,
    {
        let r = Monitor {
            streams: Table::new(),
            books: Table::new(),
            recent: VecDeque::new(),
            msg_seq: 0,
            snapshot_count: 0,
            update_count: 0,
            checksum_ok: 0,
            checksum_fail: 0,
            halted: false,
        };
        assert(r@ =~= MonitorView::empty());
        r
    }

    /// Brings the book of a market up to date with a message, and holds the
    /// message's checksum against it.
    fn validate(&mut self, conn_id: usize, feed: &Feed) -> (r: BookCheck)
        requires
            old(self).books.wf(),
            old(self).checksum_ok < u64::MAX,
            old(self).checksum_fail < u64::MAX,
        ensures
            final(self).books.wf(),
            final(self).streams == old(self).streams,
            final(self)@ == old(self)@.validated(conn_id, feed@),
            match r {
                BookCheck::Unchecked => !MonitorView::is_checked(conn_id, feed@),
                BookCheck::Unsummable => old(self)@.is_unsummable(conn_id, feed@),
                BookCheck::Checked(c) => {
                    &&& MonitorView::is_checked(conn_id, feed@)
                    &&& !old(self)@.is_unsummable(conn_id, feed@)
                    &&& is_check_of(c, final(self)@.book(feed@.market_id), feed@.checksum->0)
                },
            },
    {
        if conn_id != 0 {
            return BookCheck::Unchecked;
        }
        match &feed.levels {
            None => BookCheck::Unchecked,
            Some((bids, asks)) => {
                let ghost before = self@;
                let mut book = match self.books.take(feed.market_id) {
                    Some(b) => b,
                    None => MarketBook::new(),
                };
                assert(book@ == before.book(feed@.market_id));
                if feed.is_snapshot {
                    book.snapshot(bids, asks);
                } else {
                    book.update(bids, asks);
                }
                assert(book@ == book_after(before.book(feed@.market_id), feed@));
                let result = if feed.is_snapshot {
                    BookCheck::Unchecked
                } else {
                    match feed.checksum {
                        None => BookCheck::Unchecked,
                        Some(expected) => match try_checksum(&book.bids, &book.asks) {
                            None => BookCheck::Unsummable,
                            Some(computed) => {
                                let matched = computed == expected;
                                if matched {
                                    self.checksum_ok += 1;
                                } else {
                                    self.checksum_fail += 1;
                                }
                                BookCheck::Checked(
                                    Check {
                                        matched,
                                        expected,
                                        computed,
                                        bids: book.bids.len(),
                                        asks: book.asks.len(),
                                    },
                                )
                            },
                        },
                    }
                };
                self.books.put(feed.market_id, book);
                proof {
                    let next = before.with_book(feed@);
                    assert(self.books@ =~= next.books);
                    assert(next.book(feed@.market_id) == book@);
                    assert(self@ =~= before.validated(conn_id, feed@));
                }
                result
            },
        }
    }

    /// The counts.
    pub fn progress(&self) -> (r: Progress)
        requires
            self.wf(),
        ensures
            is_progress_of(r, self@),
    {
        let (deduped, dupes) = stream_totals(&self.streams);
        Progress {
            raw: self.update_count,
            deduped,
            dupes,
            checksum_ok: self.checksum_ok,
            checksum_fail: self.checksum_fail,
        }
    }

    /// The new update of a market before its last new one.
    fn previous_new(&self, market_id: u64) -> (r: Option<RecentMsg>)
        ensures
            opt_recent(r) == new_from_end(self@.recent, market_id, 1),
    {
        let ghost ring = self@.recent;
        let mut i: usize = self.recent.len();
        let mut later: bool = false;
        assert(ring.take(i as int) =~= ring);
        while i > 0
            invariant
                ring == self@.recent,
                i <= ring.len(),
                ring.len() == self.recent@.len(),
                new_from_end(ring, market_id, 1) == new_from_end(
                    ring.take(i as int),
                    market_id,
                    if later {
                        0
                    } else {
                        1
                    },
                ),
            decreases i,
        {
            let m = &self.recent[i - 1];
            proof {
                assert(ring.take(i as int).last() == ring[i - 1]);
                assert(ring[i - 1] == m@);
                assert(ring.take(i as int).drop_last() =~= ring.take(i - 1));
            }
            if m.market_id == market_id && m.deduped {
                if later {
                    return Some(m.duplicate());
                }
                later = true;
            }
            i -= 1;
        }
        None
    }

    /// Takes an update into the stream of its market.
    fn stream_update(&mut self, conn_id: usize, feed: &Feed, check: Option<Check>) -> (r:
        UpdateReport)
        requires
            old(self).streams.wf(),
            old(self).books.wf(),
            total(old(self).streams.entries@, received_count()) == old(self).update_count,
            old(self)@.total_deduped + old(self)@.total_duplicates == old(self).update_count,
            old(self)@.update_count + old(self)@.snapshot_count < old(self)@.msg_seq,
            old(self)@.checksum_ok + old(self)@.checksum_fail <= old(self)@.update_count + 1,
            old(self)@.recent.len() <= RING_BUFFER_SIZE,
            !old(self).halted,
        ensures
            final(self).wf(),
            final(self)@ == old(self)@.streamed(conn_id, feed@),
            r.check == check,
            is_stream_report_of(r, feed@, old(self)@, final(self)@),
    {
        let ghost before = self@;
        let ghost entries = self.streams.entries@;
        let seq = concat_block_and_log_index(feed.block_number, feed.log_index);
        self.update_count += 1;
        let mut stream = match self.streams.take(feed.market_id) {
            Some(s) => s,
            None => MarketStream::new(),
        };
        let ghost rest = self.streams.entries@;
        let ghost taken = stream;
        proof {
            assert(stream@ == before.stream(feed@.market_id));
            assert(total(entries, received_count()) == total(rest, received_count())
                + stream.total_received);
            assert(total(entries, deduped_count()) == total(rest, deduped_count())
                + stream.total_deduped);
            assert(total(entries, duplicate_count()) == total(rest, duplicate_count())
                + stream.total_duplicates);
        }
        let (is_new, is_rollback) = stream.process(seq);
        proof {
            assert(stream@ == taken@.after(seq));
            assert(stream.total_received == taken.total_received + 1);
        }
        self.streams.put(feed.market_id, stream);
        proof {
            let after = self.streams.entries@;
            assert(total(after, received_count()) == total(rest, received_count())
                + stream.total_received);
            assert(total(after, deduped_count()) == total(rest, deduped_count())
                + stream.total_deduped);
            assert(total(after, duplicate_count()) == total(rest, duplicate_count())
                + stream.total_duplicates);
        }
        let m = RecentMsg {
            conn_id,
            market_id: feed.market_id,
            block_number: feed.block_number,
            log_index: feed.log_index,
            seq: decimal_string(seq),
            checksum: feed.checksum,
            deduped: is_new,
        };
        let ghost added = m@;
        let ghost ring = self.recent@;
        self.recent.push_back(m);
        if self.recent.len() > RING_BUFFER_SIZE {
            let _ = self.recent.pop_front();
        }
        if is_rollback {
            self.halted = true;
        }
        proof {
            assert(self@.recent =~= remembered(before.recent, added));
            assert(self.streams@ =~= before.streamed(conn_id, feed@).streams);
            assert(self@ =~= before.streamed(conn_id, feed@));
            assert forall|id: u64| #[trigger] self@.streams.dom().contains(id) implies
                self@.streams[id].valid() by {
                self.streams.lemma_sound(id);
            }
        }
        let counts = self.progress();
        let progress = if is_new && counts.deduped % PROGRESS_STEP == 0 {
            Some(counts)
        } else {
            None
        };
        let rollback = if is_rollback {
            Some(Rollback { prev: self.previous_new(feed.market_id), stats: counts })
        } else {
            None
        };
        UpdateReport {
            market_id: feed.market_id,
            block_number: feed.block_number,
            log_index: feed.log_index,
            seq,
            check,
            is_new,
            progress,
            rollback,
        }
    }

    /// Takes one message of a connection, `None` being one that could not be
    /// read.
    pub fn on_message(&mut self, conn_id: usize, message: Option<&WsMessage>) -> (r: Outcome)
        requires
            old(self).wf(),
            old(self).msg_seq < u64::MAX,
        ensures
            final(self).wf(),
            final(self)@ == old(self)@.after(conn_id, said(message)),
            match r {
                Outcome::Stopped => old(self).halted,
                Outcome::Ignored => !old(self).halted && said(message) is None,
                Outcome::Unsummable => {
                    &&& !old(self).halted
                    &&& said(message) is Some
                    &&& old(self)@.is_unsummable(conn_id, said(message)->0)
                },
                Outcome::Snapshot => {
                    &&& !old(self).halted
                    &&& said(message) is Some
                    &&& said(message)->0.is_snapshot
                },
                Outcome::Update(u) => {
                    &&& !old(self).halted
                    &&& said(message) is Some
                    &&& !said(message)->0.is_snapshot
                    &&& !old(self)@.is_unsummable(conn_id, said(message)->0)
                    &&& is_stream_report_of(u, said(message)->0, old(self)@, final(self)@)
                    &&& is_check_report_of(
                        u.check,
                        conn_id,
                        said(message)->0,
                        final(self)@.book(said(message)->0.market_id),
                    )
                },
            },
    {
        if self.halted {
            return Outcome::Stopped;
        }
        self.msg_seq += 1;
        let ghost before = old(self)@;
        assert(self@ =~= before.counted());
        let feed = match message {
            Some(m) => match read_feed(m) {
                Some(f) => f,
                None => {
                    return Outcome::Ignored;
                },
            },
            None => {
                return Outcome::Ignored;
            },
        };
        assert(before.counted().is_unsummable(conn_id, feed@) == before.is_unsummable(
            conn_id,
            feed@,
        ));
        let check = match self.validate(conn_id, &feed) {
            BookCheck::Unchecked => None,
            BookCheck::Unsummable => {
                return Outcome::Unsummable;
            },
            BookCheck::Checked(c) => Some(c),
        };
        if feed.is_snapshot {
            self.snapshot_count += 1;
            return Outcome::Snapshot;
        }
        Outcome::Update(self.stream_update(conn_id, &feed, check))
    }
}

/// What a message says, one that could not be read saying nothing.
pub open spec fn said(message: Option<&WsMessage>) -> Option<FeedView> {
    match message {
        Some(m) => feed_of(*m),
        None => None,
    }
}

proof fn lemma_monitor_step_valid(v: MonitorView, conn_id: usize, feed: Option<FeedView>)
    requires
        v.valid(),
    ensures
        v.after(conn_id, feed).valid(),
{
    if let Some(f) = feed {
        let stream = v.stream(f.market_id);
        let seqs = seq![feed_sequence(f)];
        law_stream_stays_valid(stream, seqs);
        assert(seqs.drop_last() =~= Seq::empty());
        assert(stream.after_all(seqs.drop_last()) == stream);
        assert(stream.after_all(seqs) == stream.after(feed_sequence(f)));
    }
}

/// Whatever arrives on whatever connection, the monitor stays valid: every
/// update was counted once, as new or as a repeat, and no more updates are
/// remembered than the limit.
pub proof fn law_monitor_stays_valid(v: MonitorView, messages: Seq<(usize, Option<FeedView>)>)
    requires
        v.valid(),
    ensures
        v.after_all(messages).valid(),
    decreases messages.len(),
{
    if messages.len() > 0 {
        law_monitor_stays_valid(v, messages.drop_last());
        lemma_monitor_step_valid(
            v.after_all(messages.drop_last()),
            messages.last().0,
            messages.last().1,
        );
    }
}

/// Once halted, the monitor never changes again.
pub proof fn law_halted_for_good(v: MonitorView, messages: Seq<(usize, Option<FeedView>)>)
    requires
        v.halted,
    ensures
        v.after_all(messages) == v,
    decreases messages.len(),
{
    if messages.len() > 0 {
        law_halted_for_good(v, messages.drop_last());
    }
}

/// The monitor halts on a message exactly where the message is an update that
/// reaches the stream of its market and goes back there: one that is not among
/// the remembered ones and comes before the last new one.
pub proof fn law_halts_on_rollback(v: MonitorView, conn_id: usize, feed: FeedView)
    requires
        !v.halted,
    ensures
        v.after(conn_id, Some(feed)).halted == (!feed.is_snapshot && !v.is_unsummable(
            conn_id,
            feed,
        ) && v.stream(feed.market_id).is_rollback(feed_sequence(feed))),
{
}

/// Only messages of the first connection change a book.
pub proof fn law_first_connection_keeps_books(
    v: MonitorView,
    conn_id: usize,
    feed: Option<FeedView>,
)
    requires
        conn_id != 0,
    ensures
        v.after(conn_id, feed).books == v.books,
        v.after(conn_id, feed).checksum_ok == v.checksum_ok,
        v.after(conn_id, feed).checksum_fail == v.checksum_fail,
{
}

/// A message about one market leaves the stream and the book of every other
/// market as they were.
pub proof fn law_markets_are_separate(v: MonitorView, conn_id: usize, feed: FeedView, other: u64)
    requires
        other != feed.market_id,
    ensures
        v.after(conn_id, Some(feed)).stream(other) == v.stream(other),
        v.after(conn_id, Some(feed)).book(other) == v.book(other),
{
}

/// A snapshot leaves every stream as it was.
pub proof fn law_snapshot_keeps_streams(v: MonitorView, conn_id: usize, feed: FeedView)
    requires
        feed.is_snapshot,
    ensures
        v.after(conn_id, Some(feed)).streams == v.streams,
        v.after(conn_id, Some(feed)).recent == v.recent,
        v.after(conn_id, Some(feed)).halted == v.halted,
{
}

/// An update that two connections deliver one after the other is new at most
/// once: the second delivery counts as a repeat and never halts the monitor.
pub proof fn law_second_delivery_is_repeat(
    v: MonitorView,
    first: usize,
    second: usize,
    feed: FeedView,
)
    requires
        v.valid(),
        !feed.is_snapshot,
        !v.is_unsummable(first, feed),
        !v.after(first, Some(feed)).halted,
        !v.after(first, Some(feed)).is_unsummable(second, feed),
    ensures
        ({
            let once = v.after(first, Some(feed));
            let twice = once.after(second, Some(feed));
            &&& twice.total_deduped == once.total_deduped
            &&& twice.total_duplicates == once.total_duplicates + 1
            &&& twice.update_count == once.update_count + 1
            &&& !twice.halted
        }),
{
    let seq = feed_sequence(feed);
    let stream = v.stream(feed.market_id);
    let once = v.after(first, Some(feed));
    assert(once.stream(feed.market_id) == stream.after(seq));
    if stream.is_new(seq) {
        let w = stream.after(seq).window;
        assert(w[w.len() - 1] == seq);
    }
    assert(!once.stream(feed.market_id).is_new(seq));
}

/// A monitor that began empty remembers the updates that reached a stream, the
/// last of them up to the limit, in the order in which they came, and counts
/// them all.
pub proof fn law_recent_is_newest(messages: Seq<(usize, Option<FeedView>)>)
    ensures
        ({
            let v = MonitorView::empty().after_all(messages);
            let updates = MonitorView::empty().updates(messages);
            &&& v.recent == newest(updates, RING_BUFFER_SIZE as nat)
            &&& v.update_count == updates.len()
        }),
    decreases messages.len(),
{
    if messages.len() > 0 {
        let before = messages.drop_last();
        law_recent_is_newest(before);
        let state = MonitorView::empty().after_all(before);
        let last = messages.last();
        if state.is_update(last.0, last.1) {
            let record = state.record(last.0, last.1->0);
            lemma_newest_push(
                MonitorView::empty().updates(before),
                record,
                RING_BUFFER_SIZE as nat,
            );
            assert(state.after(last.0, last.1).recent == remembered(state.recent, record));
        }
    }
}

/// Where the last new update of a market was at one place in the log, an update
/// that reaches the stream halts the monitor exactly where it is not remembered,
/// the place was not zero in both parts, and the update comes before it: of a
/// lower block, or of the same block and a lower log index.
pub proof fn law_halts_by_place(v: MonitorView, conn_id: usize, f: FeedView, b1: u64, l1: u64)
    requires
        !v.halted,
        !f.is_snapshot,
        conn_id != 0 || f.levels is None || f.checksum is None,
        v.stream(f.market_id).last_seq == b1 * 0x1_0000_0000_0000_0000 + l1,
    ensures
        v.after(conn_id, Some(f)).halted == {
            &&& !v.stream(f.market_id).window.contains(
                (f.block_number * 0x1_0000_0000_0000_0000 + f.log_index) as u128,
            )
            &&& b1 > 0 || l1 > 0
            &&& f.block_number < b1 || (f.block_number == b1 && f.log_index < l1)
        },
{
}

/// The same of an update whose checksum is held against the book, where the book
/// can be summed.
pub proof fn law_checked_halts_by_place(v: MonitorView, f: FeedView, b1: u64, l1: u64)
    requires
        !v.halted,
        !f.is_snapshot,
        f.levels is Some,
        f.checksum is Some,
        all_fit(
            checksum_fields(
                side_levels(
                    v.book(f.market_id).after_update((f.levels->0).0, (f.levels->0).1).bids,
                ),
                side_levels(
                    v.book(f.market_id).after_update((f.levels->0).0, (f.levels->0).1).asks,
                ),
            ),
        ),
        v.stream(f.market_id).last_seq == b1 * 0x1_0000_0000_0000_0000 + l1,
    ensures
        v.after(0, Some(f)).halted == {
            &&& !v.stream(f.market_id).window.contains(
                (f.block_number * 0x1_0000_0000_0000_0000 + f.log_index) as u128,
            )
            &&& b1 > 0 || l1 > 0
            &&& f.block_number < b1 || (f.block_number == b1 && f.log_index < l1)
        },
{
}

proof fn lemma_ascending(messages: Seq<(usize, Option<FeedView>)>, id: u64)
    requires
        forall|i: int, j: int|
            #![trigger messages[i], messages[j]]
            {
                &&& 0 <= i < j < messages.len()
                &&& messages[i].1 is Some
                &&& messages[j].1 is Some
                &&& !messages[i].1->0.is_snapshot
                &&& !messages[j].1->0.is_snapshot
                &&& messages[i].1->0.market_id == messages[j].1->0.market_id
            } ==> messages[i].1->0.block_number < messages[j].1->0.block_number || (
            messages[i].1->0.block_number == messages[j].1->0.block_number
                && messages[i].1->0.log_index <= messages[j].1->0.log_index),
    ensures
        ({
            let v = MonitorView::empty().after_all(messages);
            &&& !v.halted
            &&& v.stream(id).last_seq == 0 || exists|k: int|
                #![trigger messages[k]]
                {
                    &&& 0 <= k < messages.len()
                    &&& messages[k].1 is Some
                    &&& !messages[k].1->0.is_snapshot
                    &&& messages[k].1->0.market_id == id
                    &&& v.stream(id).last_seq == sequence(
                        messages[k].1->0.block_number as nat,
                        messages[k].1->0.log_index as nat,
                    )
                }
        }),
    decreases messages.len(),
{
    if messages.len() > 0 {
        let rest = messages.drop_last();
        assert forall|i: int, j: int|
            #![trigger rest[i], rest[j]]
            {
                &&& 0 <= i < j < rest.len()
                &&& rest[i].1 is Some
                &&& rest[j].1 is Some
                &&& !rest[i].1->0.is_snapshot
                &&& !rest[j].1->0.is_snapshot
                &&& rest[i].1->0.market_id == rest[j].1->0.market_id
            } implies rest[i].1->0.block_number < rest[j].1->0.block_number || (
        rest[i].1->0.block_number == rest[j].1->0.block_number && rest[i].1->0.log_index
            <= rest[j].1->0.log_index) by {
            assert(rest[i] == messages[i] && rest[j] == messages[j]);
        }
        lemma_ascending(rest, id);
        let before = MonitorView::empty().after_all(rest);
        let n = messages.len() - 1;
        let last = messages[n];
        assert(messages.last() == last);
        if last.1 is Some && !last.1->0.is_snapshot {
            let f = last.1->0;
            lemma_ascending(rest, f.market_id);
            let stream = before.stream(f.market_id);
            if stream.last_seq > 0 {
                let k = choose|k: int|
                    #![trigger rest[k]]
                    {
                        &&& 0 <= k < rest.len()
                        &&& rest[k].1 is Some
                        &&& !rest[k].1->0.is_snapshot
                        &&& rest[k].1->0.market_id == f.market_id
                        &&& stream.last_seq == sequence(
                            rest[k].1->0.block_number as nat,
                            rest[k].1->0.log_index as nat,
                        )
                    };
                assert(rest[k] == messages[k]);
                assert(stream.last_seq <= feed_sequence(f));
            }
        }
        let v = MonitorView::empty().after_all(messages);
        assert(v == before.after(last.0, last.1));
        if before.stream(id).last_seq > 0 {
            let k = choose|k: int|
                #![trigger rest[k]]
                {
                    &&& 0 <= k < rest.len()
                    &&& rest[k].1 is Some
                    &&& !rest[k].1->0.is_snapshot
                    &&& rest[k].1->0.market_id == id
                    &&& before.stream(id).last_seq == sequence(
                        rest[k].1->0.block_number as nat,
                        rest[k].1->0.log_index as nat,
                    )
                };
            assert(rest[k] == messages[k]);
        }
        assert(messages[n] == last);
    }
}

/// A monitor that gets the updates of each market in ascending order of block and
/// log index, repeats among them and snapshots anywhere between, never halts,
/// whatever connections they come on.
pub proof fn law_ascending_never_halts(messages: Seq<(usize, Option<FeedView>)>)
    requires
        forall|i: int, j: int|
            #![trigger messages[i], messages[j]]
            {
                &&& 0 <= i < j < messages.len()
                &&& messages[i].1 is Some
                &&& messages[j].1 is Some
                &&& !messages[i].1->0.is_snapshot
                &&& !messages[j].1->0.is_snapshot
                &&& messages[i].1->0.market_id == messages[j].1->0.market_id
            } ==> messages[i].1->0.block_number < messages[j].1->0.block_number || (
            messages[i].1->0.block_number == messages[j].1->0.block_number
                && messages[i].1->0.log_index <= messages[j].1->0.log_index),
    ensures
        !MonitorView::empty().after_all(messages).halted,
{
    lemma_ascending(messages, 0);
}

/// The book of a market after a message of the first connection with data is
/// that of the message where it is a snapshot, and otherwise the book before,
/// brought up to date with the message's bids and asks.
pub proof fn law_book_follows_messages(
    v: MonitorView,
    f: FeedView,
    bids: Seq<LevelView>,
    asks: Seq<LevelView>,
)
    requires
        !v.halted,
        f.levels == Some((bids, asks)),
    ensures
        f.is_snapshot ==> v.after(0, Some(f)).book(f.market_id) == MarketBookView::snapshot(
            bids,
            asks,
        ),
        !f.is_snapshot ==> v.after(0, Some(f)).book(f.market_id) == v.book(
            f.market_id,
        ).after_update(bids, asks),
{
}

/// A message without data, or of another connection than the first, leaves every
/// book and both counts of checks as they were; so does a snapshot or an update
/// without a checksum with the counts.
pub proof fn law_unchecked(v: MonitorView, conn_id: usize, f: FeedView)
    ensures
        conn_id != 0 || f.levels is None ==> v.after(conn_id, Some(f)).books == v.books,
        conn_id != 0 || f.levels is None || f.is_snapshot || f.checksum is None ==> v.after(
            conn_id,
            Some(f),
        ).checksum_ok == v.checksum_ok && v.after(conn_id, Some(f)).checksum_fail
            == v.checksum_fail,
{
}

/// An update of the first connection with data and a checksum is counted as good
/// exactly where its checksum is that of the book after it, and as bad exactly
/// where it is another; where the book cannot be summed it counts as neither, and
/// the update goes no further.
pub proof fn law_checksum_counts(v: MonitorView, f: FeedView, expected: u32)
    requires
        !v.halted,
        f.levels is Some,
        !f.is_snapshot,
        f.checksum == Some(expected),
    ensures
        ({
            let w = v.after(0, Some(f));
            let bids = side_levels(w.book(f.market_id).bids);
            let asks = side_levels(w.book(f.market_id).asks);
            if !all_fit(checksum_fields(bids, asks)) {
                &&& w.checksum_ok == v.checksum_ok
                &&& w.checksum_fail == v.checksum_fail
                &&& w.update_count == v.update_count
                &&& w.streams == v.streams
                &&& w.recent == v.recent
            } else if book_checksum(bids, asks) == expected {
                &&& w.checksum_ok == v.checksum_ok + 1
                &&& w.checksum_fail == v.checksum_fail
                &&& w.update_count == v.update_count + 1
            } else {
                &&& w.checksum_ok == v.checksum_ok
                &&& w.checksum_fail == v.checksum_fail + 1
                &&& w.update_count == v.update_count + 1
            }
        }),
{
}

/// Every message counts while the monitor runs; a snapshot counts as one, and an
/// update that is not held against a book as one; a message that says nothing
/// counts as neither.
pub proof fn law_message_counts(v: MonitorView, conn_id: usize, feed: Option<FeedView>)
    requires
        !v.halted,
    ensures
        v.after(conn_id, feed).msg_seq == v.msg_seq + 1,
        feed is None ==> v.after(conn_id, feed) == (MonitorView { msg_seq: v.msg_seq + 1, ..v }),
        feed is Some && feed->0.is_snapshot ==> v.after(conn_id, feed).snapshot_count
            == v.snapshot_count + 1 && v.after(conn_id, feed).update_count == v.update_count,
        feed is Some && !feed->0.is_snapshot ==> v.after(conn_id, feed).snapshot_count
            == v.snapshot_count,
        feed is Some && !feed->0.is_snapshot && (conn_id != 0 || feed->0.levels is None
            || feed->0.checksum is None) ==> v.after(conn_id, feed).update_count == v.update_count
            + 1,
{
}

/// The stream of a market takes each update that reaches it by its place: the
/// sequence number is the block number times two to the power of sixty-four plus
/// the log index. What is remembered of the update is its own, and whether it was
/// new.
pub proof fn law_update_reaches_stream(v: MonitorView, conn_id: usize, f: FeedView)
    requires
        v.is_update(conn_id, Some(f)),
    ensures
        !v.halted && !f.is_snapshot,
        ({
            let seq = (f.block_number * 0x1_0000_0000_0000_0000 + f.log_index) as u128;
            let w = v.after(conn_id, Some(f));
            let m = w.recent[w.recent.len() - 1];
            &&& w.stream(f.market_id) == v.stream(f.market_id).after(seq)
            &&& w.update_count == v.update_count + 1
            &&& w.recent.len() == (if v.recent.len() < 200 {
                v.recent.len() + 1
            } else {
                v.recent.len()
            })
            &&& m.conn_id == conn_id
            &&& m.market_id == f.market_id
            &&& m.block_number == f.block_number
            &&& m.log_index == f.log_index
            &&& m.checksum == f.checksum
            &&& m.deduped == !v.stream(f.market_id).window.contains(seq)
            &&& digits_value(m.seq) == f.block_number * 0x1_0000_0000_0000_0000 + f.log_index
            &&& w.total_deduped == v.total_deduped + (if m.deduped {
                1int
            } else {
                0int
            })
            &&& w.total_duplicates == v.total_duplicates + (if m.deduped {
                0int
            } else {
                1int
            })
        }),
{
    law_decimal_text(feed_sequence(f) as nat);
}

/// An update reaches the stream of its market unless the monitor has halted or
/// the update is to be checked against a book that cannot be summed.
pub proof fn law_which_updates_reach_streams(v: MonitorView, conn_id: usize, f: FeedView)
    requires
        !v.halted,
        !f.is_snapshot,
    ensures
        conn_id != 0 || f.levels is None || f.checksum is None ==> v.is_update(conn_id, Some(f)),
        conn_id == 0 && f.levels is Some && f.checksum is Some ==> v.is_update(conn_id, Some(f))
            == all_fit(
            checksum_fields(
                side_levels(
                    v.book(f.market_id).after_update((f.levels->0).0, (f.levels->0).1).bids,
                ),
                side_levels(
                    v.book(f.market_id).after_update((f.levels->0).0, (f.levels->0).1).asks,
                ),
            ),
        ),
{
}

/// The counts of new updates and of repeats are the numbers of such updates among
/// all that reached a stream.
pub proof fn law_totals_count_updates(messages: Seq<(usize, Option<FeedView>)>)
    ensures
        MonitorView::empty().after_all(messages).total_deduped == MonitorView::empty().updates(
            messages,
        ).filter(|m: RecentView| m.deduped).len(),
        MonitorView::empty().after_all(messages).total_duplicates == MonitorView::empty().updates(
            messages,
        ).filter(|m: RecentView| !m.deduped).len(),
    decreases messages.len(),
{
    reveal(Seq::filter);
    if messages.len() > 0 {
        let rest = messages.drop_last();
        law_totals_count_updates(rest);
        let state = MonitorView::empty().after_all(rest);
        let last = messages.last();
        if state.is_update(last.0, last.1) {
            law_update_reaches_stream(state, last.0, last.1->0);
            let before = MonitorView::empty().updates(rest);
            let m = state.record(last.0, last.1->0);
            assert(before.push(m).drop_last() =~= before);
        }
    }
}

proof fn lemma_new_from_end_none(ring: Seq<RecentView>, market_id: u64, n: nat)
    requires
        forall|i: int|
            0 <= i < ring.len() ==> !((#[trigger] ring[i]).market_id == market_id
                && ring[i].deduped),
    ensures
        new_from_end(ring, market_id, n) is None,
    decreases ring.len(),
{
    if ring.len() > 0 {
        assert(ring[ring.len() - 1] == ring.last());
        lemma_new_from_end_none(ring.drop_last(), market_id, n);
    }
}

proof fn lemma_new_from_end_at(ring: Seq<RecentView>, market_id: u64, at: int)
    requires
        0 <= at < ring.len(),
        ring[at].market_id == market_id,
        ring[at].deduped,
        forall|i: int|
            at < i < ring.len() ==> !((#[trigger] ring[i]).market_id == market_id
                && ring[i].deduped),
    ensures
        new_from_end(ring, market_id, 0) == Some(ring[at]),
        new_from_end(ring, market_id, 1) == new_from_end(ring.take(at), market_id, 0),
    decreases ring.len(),
{
    if at < ring.len() - 1 {
        assert(ring[ring.len() - 1] == ring.last());
        lemma_new_from_end_at(ring.drop_last(), market_id, at);
        assert(ring.drop_last().take(at) =~= ring.take(at));
    } else {
        assert(ring.drop_last() =~= ring.take(at));
    }
}

/// The new update of a market before its last new one is the last among those
/// remembered that has exactly one new update of the market behind it. Where
/// fewer than two are remembered there is none.
pub proof fn law_previous_new_update(
    ring: Seq<RecentView>,
    market_id: u64,
    last: int,
    previous: int,
)
    requires
        -1 <= previous <= last < ring.len(),
        last >= 0 ==> previous < last && ring[last].market_id == market_id && ring[last].deduped,
        previous >= 0 ==> ring[previous].market_id == market_id && ring[previous].deduped,
        forall|i: int|
            previous < i < ring.len() && i != last ==> !((#[trigger] ring[i]).market_id
                == market_id && ring[i].deduped),
    ensures
        previous >= 0 ==> new_from_end(ring, market_id, 1) == Some(ring[previous]),
        previous < 0 ==> new_from_end(ring, market_id, 1) is None,
{
    if last < 0 {
        lemma_new_from_end_none(ring, market_id, 1);
    } else {
        lemma_new_from_end_at(ring, market_id, last);
        let front = ring.take(last);
        if previous >= 0 {
            assert forall|i: int| previous < i < front.len() implies !((
            #[trigger] front[i]).market_id == market_id && front[i].deduped) by {
                assert(front[i] == ring[i]);
            }
            lemma_new_from_end_at(front, market_id, previous);
        } else {
            assert forall|i: int| 0 <= i < front.len() implies !((#[trigger] front[i]).market_id
                == market_id && front[i].deduped) by {
                assert(front[i] == ring[i]);
            }
            lemma_new_from_end_none(front, market_id, 0);
        }
    }
}

/// The report of an update names the update, and says that it was new exactly
/// where it was not remembered. It brings the counts at every hundredth new
/// update, and what went before where the update goes back.
pub proof fn law_report(r: UpdateReport, f: FeedView, v: MonitorView, w: MonitorView)
    requires
        is_stream_report_of(r, f, v, w),
    ensures
        r.market_id == f.market_id,
        r.block_number == f.block_number,
        r.log_index == f.log_index,
        r.seq == f.block_number * 0x1_0000_0000_0000_0000 + f.log_index,
        r.is_new == !v.stream(f.market_id).window.contains(r.seq),
        r.progress is Some == (r.is_new && w.total_deduped % 100 == 0),
        r.rollback is Some == (r.is_new && 0 < v.stream(f.market_id).last_seq && r.seq
            < v.stream(f.market_id).last_seq),
        r.progress matches Some(p) ==> p.raw == w.update_count && p.deduped == w.total_deduped
            && p.dupes == w.total_duplicates && p.checksum_ok == w.checksum_ok && p.checksum_fail
            == w.checksum_fail,
        r.rollback matches Some(b) ==> b.stats.raw == w.update_count && b.stats.deduped
            == w.total_deduped && b.stats.dupes == w.total_duplicates && b.stats.checksum_ok
            == w.checksum_ok && b.stats.checksum_fail == w.checksum_fail,
        r.rollback matches Some(b) ==> (match b.prev {
            Some(m) => new_from_end(w.recent, f.market_id, 1) == Some(m@),
            None => new_from_end(w.recent, f.market_id, 1) is None,
        }),
{
}

/// What is reported of a check: it is made exactly for an update of the first
/// connection with data and a checksum, and says the checksum of the message,
/// that of the book, whether they are the same, and how many levels the book has.
pub proof fn law_check_report(
    check: Option<Check>,
    conn_id: usize,
    f: FeedView,
    book: MarketBookView,
)
    requires
        is_check_report_of(check, conn_id, f, book),
    ensures
        check is Some == (conn_id == 0 && f.levels is Some && !f.is_snapshot
            && f.checksum is Some),
        check matches Some(c) ==> {
            &&& f.checksum == Some(c.expected)
            &&& c.computed == book_checksum(side_levels(book.bids), side_levels(book.asks))
            &&& c.matched == (c.computed == c.expected)
            &&& c.bids == side_levels(book.bids).len()
            &&& c.asks == side_levels(book.asks).len()
        },
{
}

/// What a text that could be read says is what its message says, and any other
/// says nothing.
pub proof fn law_said(m: WsMessage)
    ensures
        said(Some(&m)) == feed_of(m),
        said(None) is None,
{
}

/// What the monitor shows is what its fields hold, and its totals are the sums
/// over its streams.
pub proof fn law_monitor_shows_its_fields(m: Monitor, s: MarketStream, r: RecentMsg, i: int)
    ensures
        m@.streams == m.streams@,
        m@.books == m.books@,
        m@.msg_seq == m.msg_seq,
        m@.snapshot_count == m.snapshot_count,
        m@.update_count == m.update_count,
        m@.checksum_ok == m.checksum_ok,
        m@.checksum_fail == m.checksum_fail,
        m@.halted == m.halted,
        m@.recent.len() == m.recent@.len(),
        0 <= i < m.recent@.len() ==> m@.recent[i] == m.recent@[i]@,
        deduped_count()(s) == s.total_deduped,
        duplicate_count()(s) == s.total_duplicates,
        r@.conn_id == r.conn_id && r@.market_id == r.market_id && r@.block_number
            == r.block_number && r@.log_index == r.log_index && r@.seq == r.seq@ && r@.checksum
            == r.checksum && r@.deduped == r.deduped,
{
}

/// A market that no update has reached has an empty stream, and one that no
/// message with data has reached an empty book. A new monitor has counted
/// nothing.
pub proof fn law_unknown_markets(v: MonitorView, id: u64)
    ensures
        !v.streams.dom().contains(id) ==> v.stream(id).window.len() == 0 && v.stream(id).last_seq
            == 0 && v.stream(id).total_received == 0 && v.stream(id).total_deduped == 0
            && v.stream(id).total_duplicates == 0,
        v.streams.dom().contains(id) ==> v.stream(id) == v.streams[id],
        !v.books.dom().contains(id) ==> v.book(id).bids.dom().len() == 0 && v.book(
            id,
        ).asks.dom().len() == 0,
        v.books.dom().contains(id) ==> v.book(id) == v.books[id],
        !MonitorView::empty().streams.dom().contains(id),
        !MonitorView::empty().books.dom().contains(id),
        MonitorView::empty().msg_seq == 0,
        MonitorView::empty().snapshot_count == 0,
        MonitorView::empty().checksum_ok == 0,
        MonitorView::empty().checksum_fail == 0,
        !MonitorView::empty().halted,
{
}

} // verus!
