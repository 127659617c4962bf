//! Deduplication of the update stream of one market.
//!
//! Updates arrive over several connections, so each is seen more than once.
//! A stream keeps the sequence numbers that it saw last, drops repeats, and
//! notices an update that is older than the one before it.

use std::collections::{HashSet, VecDeque};

use vstd::prelude::*;

verus! {

broadcast use vstd::std_specs::hash::group_hash_axioms;

/// How many sequence numbers a stream remembers.
pub const SEEN_LIMIT: usize = 10000;

/// The sequence number of an event, block number before log index.
pub open spec fn sequence(block_number: nat, log_index: nat) -> nat {
    block_number * 0x1_0000_0000_0000_0000 + log_index
}

/// Joins a block number and a log index into one sequence number.
pub fn concat_block_and_log_index(block_number: u64, log_index: u64) -> (r: u128)
    ensures
        r == sequence(block_number as nat, log_index as nat),
{
    let high: u128 = block_number as u128;
    let low: u128 = log_index as u128;
    assert(((high << 64u128) | low) == high * 0x1_0000_0000_0000_0000u128 + low) by (bit_vector)
        requires
            high <= 0xffff_ffff_ffff_ffffu128,
            low <= 0xffff_ffff_ffff_ffffu128,
    ;
    (high << 64u128) | low
}

/// Sequence numbers are ordered as the pairs of block number and log index
/// are: by block number first, then by log index. Different pairs have
/// different sequence numbers.
pub proof fn law_sequence_order(b1: u64, l1: u64, b2: u64, l2: u64)
    ensures
        (sequence(b1 as nat, l1 as nat) < sequence(b2 as nat, l2 as nat)) == (b1 < b2 || (b1 == b2
            && l1 < l2)),
        (sequence(b1 as nat, l1 as nat) == sequence(b2 as nat, l2 as nat)) == (b1 == b2 && l1
            == l2),
{
}

/// What a stream knows: the last new sequence number (zero before the first),
/// the remembered ones, oldest first, and the three counts.
#[verifier::ext_equal]
pub struct StreamView {
    pub last_seq: nat,
    pub window: Seq<u128>,
    pub total_received: nat,
    pub total_deduped: nat,
    pub total_duplicates: nat,
}

impl StreamView {
    pub open spec fn empty() -> StreamView {
        StreamView {
            last_seq: 0,
            window: Seq::empty(),
            total_received: 0,
            total_deduped: 0,
            total_duplicates: 0,
        }
    }

    /// No number is remembered twice, no more than the limit are remembered,
    /// and every update was counted as new or as a repeat.
    pub open spec fn valid(self) -> bool {
        &&& self.window.no_duplicates()
        &&& self.window.len() <= SEEN_LIMIT
        &&& self.total_received == self.total_deduped + self.total_duplicates
    }

    /// Whether a sequence number is not among the remembered ones.
    pub open spec fn is_new(self, seq: u128) -> bool {
        !self.window.contains(seq)
    }

    /// Whether a sequence number is new and below the last new one.
    pub open spec fn is_rollback(self, seq: u128) -> bool {
        self.is_new(seq) && self.last_seq > 0 && seq < self.last_seq
    }

    /// The stream after one more update.
    pub open spec fn after(self, seq: u128) -> StreamView {
        if self.is_new(seq) {
            StreamView {
                last_seq: seq as nat,
                window: slide(self.window, seq),
                total_received: self.total_received + 1,
                total_deduped: self.total_deduped + 1,
                total_duplicates: self.total_duplicates,
            }
        } else {
            StreamView {
                last_seq: self.last_seq,
                window: self.window,
                total_received: self.total_received + 1,
                total_deduped: self.total_deduped,
                total_duplicates: self.total_duplicates + 1,
            }
        }
    }

    /// The stream after a list of updates.
    pub open spec fn after_all(self, seqs: Seq<u128>) -> StreamView
        decreases seqs.len(),
    {
        if seqs.len() == 0 {
            self
        } else {
            self.after_all(seqs.drop_last()).after(seqs.last())
        }
    }

    /// Those of a list of updates that were new when they came.
    pub open spec fn accepted(self, seqs: Seq<u128>) -> Seq<u128>
        decreases seqs.len(),
    {
        if seqs.len() == 0 {
            Seq::empty()
        } else {
            let before = self.accepted(seqs.drop_last());
            if self.after_all(seqs.drop_last()).is_new(seqs.last()) {
                before.push(seqs.last())
            } else {
                before
            }
        }
    }
}

/// The last `n` items of a list, or the whole list where it has no more.
pub open spec fn newest<T>(items: Seq<T>, n: nat) -> Seq<T> {
    if items.len() <= n {
        items
    } else {
        items.skip(items.len() - n)
    }
}

/// One more item at the end of the last `n` drives the first of them out where
/// there are `n` already.
pub proof fn lemma_newest_push<T>(items: Seq<T>, item: T, n: nat)
    requires
        n > 0,
    ensures
        newest(items.push(item), n) == if newest(items, n).len() < n {
            newest(items, n).push(item)
        } else {
            newest(items, n).push(item).skip(1)
        },
{
    let kept = newest(items, n).push(item);
    if items.len() >= n {
        assert(newest(items.push(item), n) =~= kept.skip(1));
    }
}

/// The window with one more number at its end; the oldest leaves where the
/// limit is passed.
pub open spec fn slide(window: Seq<u128>, seq: u128) -> Seq<u128> {
    if window.len() < SEEN_LIMIT {
        window.push(seq)
    } else {
        window.push(seq).skip(1)
    }
}

/// The deduplicated stream of one market.
pub struct MarketStream {
    pub last_seq: u128,
    pub seen: HashSet<u128>,
    pub seen_queue: VecDeque<u128>,
    pub total_received: u64,
    pub total_deduped: u64,
    pub total_duplicates: u64,
}

impl View for MarketStream {
    type V = StreamView;

    open spec fn view(&self) -> StreamView {
        StreamView {
            last_seq: self.last_seq as nat,
            window: self.seen_queue@,
            total_received: self.total_received as nat,
            total_deduped: self.total_deduped as nat,
            total_duplicates: self.total_duplicates as nat,
        }
    }
}

impl MarketStream {
    /// The view is valid, and the set holds what the queue holds.
    pub open spec fn wf(&self) -> bool {
        &&& self@.valid()
        &&& self.seen@ == self.seen_queue@.to_set()
    }

    pub fn new() -> (r: Self)
        ensures
            r.wf(),
            r@ == StreamView::empty(),
            r.last_seq == 0,
            r.seen_queue@.len() == 0,
            r.total_received == 0,
            r.total_deduped == 0,
            r.total_duplicates == 0,
    {
        let r = MarketStream {
            last_seq: 0,
            seen: HashSet::new(),
            seen_queue: VecDeque::new(),
            total_received: 0,
            total_deduped: 0,
            total_duplicates: 0,
        };
        assert(r.seen@ =~= r.seen_queue@.to_set());
        r
    }

    /// Takes one update: returns whether it is new, and whether it is new and
    /// older than the last new one.
    pub fn process(&mut self, seq: u128) -> (r: (bool, bool))
        requires
            old(self).wf(),
            old(self).total_received < u64::MAX,
        ensures
            final(self).wf(),
            final(self)@ == old(self)@.after(seq),
            r.0 == old(self)@.is_new(seq),
            r.1 == old(self)@.is_rollback(seq),
            r.0 == !old(self).seen_queue@.contains(seq),
            r.1 == (r.0 && 0 < old(self).last_seq && seq < old(self).last_seq),
            final(self).last_seq == if r.0 {
                seq
            } else {
                old(self).last_seq
            },
            final(self).total_received == old(self).total_received + 1,
            final(self).total_deduped == old(self).total_deduped + (if r.0 {
                1int
            } else {
                0int
            }),
            final(self).total_duplicates == old(self).total_duplicates + (if r.0 {
                0int
            } else {
                1int
            }),
    {
        let ghost before = self.seen_queue@;
        self.total_received += 1;
        if self.seen.contains(&seq) {
            self.total_duplicates += 1;
            return (false, false);
        }
        assert(!before.contains(seq));
        self.seen.insert(seq);
        self.seen_queue.push_back(seq);
        proof {
            assert(before.push(seq).to_set() =~= before.to_set().insert(seq)) by {
                assert(before.push(seq)[before.len() as int] == seq);
                assert forall|x: u128| before.contains(x) implies before.push(seq).contains(x) by {
                    let i = before.index_of(x);
                    assert(before.push(seq)[i] == x);
                }
            }
        }
        if self.seen_queue.len() > SEEN_LIMIT {
            let ghost full = self.seen_queue@;
            let ghost seen = self.seen@;
            if let Some(old_seq) = self.seen_queue.pop_front() {
                self.seen.remove(&old_seq);
                proof {
                    assert(full[0] == old_seq);
                    assert(full.no_duplicates());
                    assert(self.seen_queue@ =~= full.skip(1));
                    assert(full.skip(1).to_set() =~= seen.remove(old_seq)) by {
                        assert forall|x: u128|
                            full.skip(1).contains(x) == (full.contains(x) && x != old_seq) by {
                            if full.contains(x) && x != old_seq {
                                let i = full.index_of(x);
                                assert(full.skip(1)[i - 1] == x);
                            }
                            if full.skip(1).contains(x) {
                                let i = full.skip(1).index_of(x);
                                assert(full[i + 1] == x);
                            }
                        }
                    }
                }
            }
        }
        self.total_deduped += 1;
        let rollback = self.last_seq > 0 && seq < self.last_seq;
        self.last_seq = seq;
        (true, rollback)
    }
}

proof fn lemma_after_keeps_valid(v: StreamView, seq: u128)
    requires
        v.valid(),
    ensures
        v.after(seq).valid(),
{
    if v.is_new(seq) {
        assert(v.window.push(seq).no_duplicates());
    }
}

/// Whatever arrives, a valid stream stays valid: its window holds no number
/// twice and at most the limit, and the count of what arrived is the count of
/// what was new plus the count of repeats.
pub proof fn law_stream_stays_valid(v: StreamView, seqs: Seq<u128>)
    requires
        v.valid(),
    ensures
        v.after_all(seqs).valid(),
        v.after_all(seqs).total_received == v.total_received + seqs.len(),
    decreases seqs.len(),
{
    if seqs.len() > 0 {
        law_stream_stays_valid(v, seqs.drop_last());
        lemma_after_keeps_valid(v.after_all(seqs.drop_last()), seqs.last());
    }
}

/// Where a number stands in the window after further updates: it has moved
/// towards the front by no more than the number of those updates, counted from
/// the moment the window is full.
proof fn lemma_position_after(v: StreamView, seq: u128, seqs: Seq<u128>)
    requires
        v.valid(),
        v.is_new(seq),
        seqs.len() < SEEN_LIMIT,
    ensures
        ({
            let w = v.after(seq).after_all(seqs).window;
            exists|i: int|
                #![trigger w[i]]
                SEEN_LIMIT - 1 - seqs.len() <= i + (SEEN_LIMIT - w.len()) && 0 <= i < w.len() && w[i]
                    == seq
        }),
    decreases seqs.len(),
{
    let start = v.after(seq);
    lemma_after_keeps_valid(v, seq);
    if seqs.len() == 0 {
        assert(start.window[start.window.len() - 1] == seq);
    } else {
        let rest = seqs.drop_last();
        lemma_position_after(v, seq, rest);
        law_stream_stays_valid(start, rest);
        let before = start.after_all(rest);
        let w = before.window;
        let i = choose|i: int|
            #![trigger w[i]]
            SEEN_LIMIT - 1 - rest.len() <= i + (SEEN_LIMIT - w.len()) && 0 <= i < w.len() && w[i]
                == seq;
        let next = before.after(seqs.last());
        assert(start.after_all(seqs) == next);
        if before.is_new(seqs.last()) {
            if w.len() < SEEN_LIMIT {
                assert(next.window[i] == seq);
            } else {
                assert(next.window[i - 1] == seq);
            }
        } else {
            assert(next.window[i] == seq);
        }
    }
}

/// An update that was new is recognised when it comes again, as long as fewer
/// than the limit of updates came in between; it then changes the counts and
/// nothing else.
pub proof fn law_repeat_is_recognised(v: StreamView, seq: u128, between: Seq<u128>)
    requires
        v.valid(),
        v.is_new(seq),
        between.len() < SEEN_LIMIT,
    ensures
        !v.after(seq).after_all(between).is_new(seq),
        !v.after(seq).after_all(between).is_rollback(seq),
{
    lemma_position_after(v, seq, between);
}

/// A stream that began empty remembers the updates that were new, the last of
/// them up to the limit, in the order in which they came; it counts them, and
/// the last of them is its last number.
pub proof fn law_window_is_newest(seqs: Seq<u128>)
    ensures
        ({
            let v = StreamView::empty().after_all(seqs);
            let accepted = StreamView::empty().accepted(seqs);
            &&& v.window == newest(accepted, SEEN_LIMIT as nat)
            &&& v.total_deduped == accepted.len()
            &&& v.last_seq == if accepted.len() == 0 {
                0
            } else {
                accepted.last() as nat
            }
        }),
    decreases seqs.len(),
{
    if seqs.len() > 0 {
        let before = seqs.drop_last();
        law_window_is_newest(before);
        lemma_newest_push(
            StreamView::empty().accepted(before),
            seqs.last(),
            SEEN_LIMIT as nat,
        );
    }
}

/// Block number and log index can be read off a sequence number: they are what
/// two to the power of sixty-four takes out of it and leaves over.
pub proof fn law_sequence_parts(block_number: u64, log_index: u64)
    ensures
        sequence(block_number as nat, log_index as nat) / 0x1_0000_0000_0000_0000 == block_number,
        sequence(block_number as nat, log_index as nat) % 0x1_0000_0000_0000_0000 == log_index,
        sequence(block_number as nat, log_index as nat) <= u128::MAX,
{
}

/// A stream whose last new update was that of one place in the log, not zero in
/// both parts, goes back exactly with an update that it does not remember of an
/// earlier place: of a lower block, or of the same block and a lower log index.
pub proof fn law_rollback_by_place(v: StreamView, b1: u64, l1: u64, b2: u64, l2: u64, seq: u128)
    requires
        v.last_seq == b1 * 0x1_0000_0000_0000_0000 + l1,
        b1 > 0 || l1 > 0,
        seq == b2 * 0x1_0000_0000_0000_0000 + l2,
        !v.window.contains(seq),
    ensures
        v.is_rollback(seq) == (b2 < b1 || (b2 == b1 && l2 < l1)),
        v.is_new(seq),
        v.after(seq).last_seq == seq,
{
}

/// A remembered update is a repeat: it never goes back, and leaves the last
/// number, what is remembered and the count of new updates as they were. An
/// update before which nothing but zero came does not go back either.
pub proof fn law_repeat_changes_counts_only(v: StreamView, seq: u128)
    ensures
        v.is_new(seq) == !v.window.contains(seq),
        v.window.contains(seq) ==> !v.is_rollback(seq),
        v.window.contains(seq) ==> v.after(seq).last_seq == v.last_seq,
        v.window.contains(seq) ==> v.after(seq).window == v.window,
        v.window.contains(seq) ==> v.after(seq).total_deduped == v.total_deduped,
        v.window.contains(seq) ==> v.after(seq).total_duplicates == v.total_duplicates + 1,
        !v.window.contains(seq) ==> v.after(seq).total_deduped == v.total_deduped + 1,
        !v.window.contains(seq) ==> v.after(seq).total_duplicates == v.total_duplicates,
        v.after(seq).total_received == v.total_received + 1,
        v.last_seq == 0 ==> !v.is_rollback(seq),
        seq >= v.last_seq ==> !v.is_rollback(seq),
{
}

/// In a stream that began empty, an update is new exactly where it is not among
/// the last ten thousand updates that were new.
pub proof fn law_new_by_history(seqs: Seq<u128>, seq: u128)
    ensures
        ({
            let v = StreamView::empty().after_all(seqs);
            let accepted = StreamView::empty().accepted(seqs);
            let first: int = if accepted.len() <= 10000 {
                0
            } else {
                accepted.len() - 10000
            };
            v.is_new(seq) == !exists|i: int| first <= i < accepted.len() && accepted[i] == seq
        }),
{
    law_window_is_newest(seqs);
    let v = StreamView::empty().after_all(seqs);
    let accepted = StreamView::empty().accepted(seqs);
    let first: int = if accepted.len() <= 10000 {
        0
    } else {
        accepted.len() - 10000
    };
    if v.window.contains(seq) {
        let k = choose|k: int| 0 <= k < v.window.len() && v.window[k] == seq;
        assert(accepted[first + k] == seq);
    }
    if exists|i: int| first <= i < accepted.len() && accepted[i] == seq {
        let i = choose|i: int| first <= i < accepted.len() && accepted[i] == seq;
        assert(v.window[i - first] == seq);
    }
}

/// What a stream shows is what its fields hold.
pub proof fn law_stream_shows_its_fields(s: MarketStream)
    ensures
        s@.last_seq == s.last_seq,
        s@.window == s.seen_queue@,
        s@.total_received == s.total_received,
        s@.total_deduped == s.total_deduped,
        s@.total_duplicates == s.total_duplicates,
{
}

} // verus!
