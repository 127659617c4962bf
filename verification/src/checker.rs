//! The checksum checker: it follows the books of one connection and holds each
//! against the checksums that come with its updates, until it has checked
//! enough.

use vstd::prelude::*;

use crate::book::{
    all_priced, prices_readable, side_levels, LevelView, MarketBook, MarketBookView,
};
use crate::checksum::{all_numbers_fit, book_checksum, checksum_fields, strict_checksum};
use crate::decimal::decimal_value;
use crate::json::{
    document, id_of, levels_under, member, number_of, parse_levels, parse_market_id, Json,
    JsonTree,
};
use crate::message::market_of;
use crate::monitor::{is_check_of, market_checksum, Check};
use crate::table::Table;
use crate::text::same_text;

verus! {

/// How many updates are checked.
pub const CHECK_LIMIT: u32 = 200;

/// After how many checks the checker reports its progress.
pub const REPORT_STEP: u32 = 50;

/// What a message is: its type, or where it has none, its method; empty where
/// that is no text.
pub open spec fn kind_of(tree: JsonTree) -> Seq<char> {
    let named = match member(tree, "type"@) {
        Some(t) => Some(t),
        None => member(tree, "method"@),
    };
    match named {
        Some(JsonTree::Text(s)) => s,
        _ => Seq::empty(),
    }
}

/// The market that a document is about.
pub open spec fn document_market(tree: JsonTree) -> Option<u64> {
    market_of(member(tree, "market_id"@), member(tree, "data"@))
}

/// The checksum that a document gives: the low thirty-two bits of its number,
/// zero where it has none.
pub open spec fn expected_checksum(tree: JsonTree) -> u32 {
    match member(tree, "checksum"@) {
        Some(t) => match number_of(t) {
            Some(n) => (n % 0x1_0000_0000) as u32,
            None => 0,
        },
        None => 0,
    }
}

/// Whether a document is passed over: a confirmation, one without a kind, a
/// market or data.
pub open spec fn is_skipped(tree: JsonTree) -> bool {
    ||| kind_of(tree) == "subscribe"@
    ||| kind_of(tree).len() == 0
    ||| document_market(tree) is None
    ||| member(tree, "data"@) is None
}

pub open spec fn is_snapshot(tree: JsonTree) -> bool {
    kind_of(tree) == "snapshot"@
}

pub open spec fn bid_levels(tree: JsonTree) -> Seq<LevelView> {
    levels_under(member(tree, "data"@)->0, "bids"@)
}

pub open spec fn ask_levels(tree: JsonTree) -> Seq<LevelView> {
    levels_under(member(tree, "data"@)->0, "asks"@)
}

/// Whether every price of a document is a number.
pub open spec fn is_priced(tree: JsonTree) -> bool {
    all_priced(bid_levels(tree)) && all_priced(ask_levels(tree))
}

/// Whether the texts of a book are numbers whose amounts fit.
pub open spec fn strictly_summable(book: MarketBookView) -> bool {
    all_numbers_fit(checksum_fields(side_levels(book.bids), side_levels(book.asks)))
}

#[verifier::ext_equal]
pub struct CheckerView {
    pub books: Map<u64, MarketBookView>,
    pub count: nat,
    pub ok_count: nat,
    pub fail_count: nat,
}

impl CheckerView {
    pub open spec fn empty() -> CheckerView {
        CheckerView { books: Map::empty(), count: 0, ok_count: 0, fail_count: 0 }
    }

    /// Every check passed or failed, and no more were made than the limit.
    pub open spec fn valid(self) -> bool {
        &&& self.ok_count + self.fail_count == self.count
        &&& self.count <= CHECK_LIMIT
    }

    /// The book of a market, empty before its first message.
    pub open spec fn book(self, id: u64) -> MarketBookView {
        if self.books.dom().contains(id) {
            self.books[id]
        } else {
            MarketBookView::empty()
        }
    }

    /// The book of the market of a document after the document.
    pub open spec fn next_book(self, tree: JsonTree) -> MarketBookView {
        if is_snapshot(tree) {
            MarketBookView::snapshot(bid_levels(tree), ask_levels(tree))
        } else {
            self.book(document_market(tree)->0).after_update(bid_levels(tree), ask_levels(tree))
        }
    }

    /// The checker after a document.
    pub open spec fn after(self, tree: JsonTree) -> CheckerView {
        if is_skipped(tree) || !is_priced(tree) {
            self
        } else {
            let book = self.next_book(tree);
            let next = CheckerView {
                books: self.books.insert(document_market(tree)->0, book),
                ..self
            };
            if is_snapshot(tree) || !strictly_summable(book) {
                next
            } else if market_checksum(book) == expected_checksum(tree) {
                CheckerView { count: self.count + 1, ok_count: self.ok_count + 1, ..next }
            } else {
                CheckerView { count: self.count + 1, fail_count: self.fail_count + 1, ..next }
            }
        }
    }
}

/// What a document did.
pub enum CheckOutcome {
    /// It was passed over.
    Skipped,
    /// One of its prices is not a number.
    Unpriced,
    /// The book holds a text that is not a number, or an amount that does not
    /// fit.
    Unsummable,
    /// It replaced a book, which now has this many levels.
    Snapshot { market_id: u64, bids: usize, asks: usize },
    /// It changed a book, which was then checked.
    Checked {
        market_id: u64,
        check: Check,
        /// How many checks have been made.
        count: u32,
        /// Whether the progress is to be reported.
        report: bool,
        /// Whether enough has been checked.
        done: bool,
    },
}

/// The checker.
pub struct Checker {
    pub books: Table<MarketBook>,
    pub count: u32,
    pub ok_count: u32,
    pub fail_count: u32,
}

impl View for Checker {
    type V = CheckerView;

    open spec fn view(&self) -> CheckerView {
        CheckerView {
            books: self.books@,
            count: self.count as nat,
            ok_count: self.ok_count as nat,
            fail_count: self.fail_count as nat,
        }
    }
}

/// The type of a document, or where it has none, its method; empty where that
/// is no text.
fn read_kind(v: &Json) -> (r: &str)
    ensures
        r@ == kind_of(v.tree()),
{
    proof {
        reveal_strlit("");
        assert(""@ =~= Seq::<char>::empty());
    }
    let named = match v.get("type") {
        Some(t) => Some(t),
        None => v.get("method"),
    };
    match named {
        Some(t) => match t.as_str() {
            Some(s) => s,
            None => "",
        },
        None => "",
    }
}

/// The market that a document is about.
pub fn document_market_id(v: &Json) -> (r: Option<u64>)
    ensures
        r == document_market(v.tree()),
{
    match v.get("market_id") {
        Some(m) => parse_market_id(m),
        None => match v.get("data") {
            Some(d) => match d.get("market_id") {
                Some(m) => parse_market_id(m),
                None => None,
            },
            None => None,
        },
    }
}

fn read_expected(v: &Json) -> (r: u32)
    ensures
        r == expected_checksum(v.tree()),
{
    match v.get("checksum") {
        Some(c) => match c.as_u64() {
            Some(n) => (n % 0x1_0000_0000) as u32,
            None => 0,
        },
        None => 0,
    }
}

impl Checker {
    pub open spec fn wf(&self) -> bool {
        self@.valid() && self.books.wf()
    }

    pub fn new() -> (r: Self)
        ensures
            r.wf(),
            r@ == CheckerView::empty(),
            r.books.entries@.len() == 0,
            r.count == 0,
            r.ok_count == 0,
            r.fail_count == 0,
    {
        Checker { books: Table::new(), count: 0, ok_count: 0, fail_count: 0 }
    }

    /// Takes one document.
    pub fn on_document(&mut self, v: &Json) -> (r: CheckOutcome)
        requires
            old(self).wf(),
            old(self).count < CHECK_LIMIT,
        ensures
            final(self).wf(),
            final(self)@ == old(self)@.after(v.tree()),
            is_outcome_of(r, v.tree(), old(self)@),
    {
        let ghost before = self@;
        let ghost tree = v.tree();
        let kind = read_kind(v);
        if same_text(kind, "subscribe") || kind.as_bytes().len() == 0 {
            proof {
                lemma_no_bytes(kind@);
            }
            return CheckOutcome::Skipped;
        }
        proof {
            lemma_no_bytes(kind@);
        }
        let market_id = match document_market_id(v) {
            Some(id) => id,
            None => {
                return CheckOutcome::Skipped;
            },
        };
        let data = match v.get("data") {
            Some(d) => d,
            None => {
                return CheckOutcome::Skipped;
            },
        };
        let bids = parse_levels(data, "bids");
        let asks = parse_levels(data, "asks");
        if !prices_readable(&bids) || !prices_readable(&asks) {
            return CheckOutcome::Unpriced;
        }
        let mut book = match self.books.take(market_id) {
            Some(b) => b,
            None => MarketBook::new(),
        };
        assert(book@ == before.book(market_id));
        if same_text(kind, "snapshot") {
            book.snapshot(&bids, &asks);
            let nb = book.bids.len();
            let na = book.asks.len();
            self.books.put(market_id, book);
            assert(self@ =~= before.after(tree));
            return CheckOutcome::Snapshot { market_id, bids: nb, asks: na };
        }
        book.update(&bids, &asks);
        let expected = read_expected(v);
        let nb = book.bids.len();
        let na = book.asks.len();
        let computed = match strict_checksum(&book.bids, &book.asks) {
            Some(c) => c,
            None => {
                self.books.put(market_id, book);
                assert(self@ =~= before.after(tree));
                return CheckOutcome::Unsummable;
            },
        };
        self.books.put(market_id, book);
        self.count += 1;
        let matched = computed == expected;
        if matched {
            self.ok_count += 1;
        } else {
            self.fail_count += 1;
        }
        assert(self@ =~= before.after(tree));
        CheckOutcome::Checked {
            market_id,
            check: Check { matched, expected, computed, bids: nb, asks: na },
            count: self.count,
            report: self.count % REPORT_STEP == 0,
            done: self.count >= CHECK_LIMIT,
        }
    }

    /// Takes one text; `None` where it is no document.
    pub fn on_text(&mut self, text: &str) -> (r: Option<CheckOutcome>)
        requires
            old(self).wf(),
            old(self).count < CHECK_LIMIT,
        ensures
            final(self).wf(),
            match r {
                Some(outcome) => {
                    &&& document(text@) is Some
                    &&& final(self)@ == old(self)@.after(document(text@)->0)
                    &&& is_outcome_of(outcome, document(text@)->0, old(self)@)
                },
                None => document(text@) is None && *final(self) == *old(self),
            },
    {
        match Json::parse(text) {
            Ok(v) => Some(self.on_document(&v)),
            Err(_) => None,
        }
    }
}

/// A text without bytes is empty.
proof fn lemma_no_bytes(s: Seq<char>)
    ensures
        (vstd::utf8::encode_utf8(s).len() == 0) == (s.len() == 0),
{
    reveal_with_fuel(vstd::utf8::encode_utf8, 2);
}

/// Whether an outcome is what a document does to a checker.
pub open spec fn is_outcome_of(r: CheckOutcome, tree: JsonTree, before: CheckerView) -> bool {
    let book = before.next_book(tree);
    match r {
        CheckOutcome::Skipped => is_skipped(tree),
        CheckOutcome::Unpriced => !is_skipped(tree) && !is_priced(tree),
        CheckOutcome::Snapshot { market_id, bids, asks } => {
            &&& !is_skipped(tree)
            &&& is_priced(tree)
            &&& is_snapshot(tree)
            &&& document_market(tree) == Some(market_id)
            &&& bids == side_levels(book.bids).len()
            &&& asks == side_levels(book.asks).len()
        },
        CheckOutcome::Unsummable => {
            &&& !is_skipped(tree)
            &&& is_priced(tree)
            &&& !is_snapshot(tree)
            &&& !strictly_summable(book)
        },
        CheckOutcome::Checked { market_id, check, count, report, done } => {
            &&& !is_skipped(tree)
            &&& is_priced(tree)
            &&& !is_snapshot(tree)
            &&& strictly_summable(book)
            &&& document_market(tree) == Some(market_id)
            &&& is_check_of(check, book, expected_checksum(tree))
            &&& count == before.count + 1
            &&& report == (count % REPORT_STEP == 0)
            &&& done == (count == CHECK_LIMIT)
        },
    }
}

/// Whatever comes before enough has been checked, every check has passed or
/// failed, and no more are made than the limit.
pub proof fn law_checker_stays_valid(v: CheckerView, tree: JsonTree)
    requires
        v.valid(),
        v.count < CHECK_LIMIT,
    ensures
        v.after(tree).valid(),
{
}

/// What a snapshot leaves of a market does not depend on what was there before.
pub proof fn law_snapshot_forgets(v: CheckerView, w: CheckerView, tree: JsonTree)
    requires
        !is_skipped(tree),
        is_priced(tree),
        is_snapshot(tree),
    ensures
        v.after(tree).book(document_market(tree)->0) == w.after(tree).book(
            document_market(tree)->0,
        ),
{
}

/// A document has a kind by its type, or by its method where it has no type at
/// all; where that is no text it has none, and is passed over, as is one whose
/// kind is `subscribe`, one without a market, and one without data.
pub proof fn law_passed_over(tree: JsonTree)
    ensures
        member(tree, "type"@) matches Some(JsonTree::Text(s)) ==> kind_of(tree) == s,
        member(tree, "type"@) is Some && !(member(tree, "type"@)->0 is Text) ==> kind_of(
            tree,
        ).len() == 0,
        member(tree, "type"@) is None ==> (match member(tree, "method"@) {
            Some(JsonTree::Text(s)) => kind_of(tree) == s,
            _ => kind_of(tree).len() == 0,
        }),
        is_skipped(tree) == {
            ||| kind_of(tree).len() == 0
            ||| kind_of(tree) == "subscribe"@
            ||| document_market(tree) is None
            ||| member(tree, "data"@) is None
        },
        member(tree, "market_id"@) is Some ==> document_market(tree) == id_of(
            member(tree, "market_id"@)->0,
        ),
        member(tree, "market_id"@) is None && member(tree, "data"@) is Some ==> document_market(
            tree,
        ) == (match member(member(tree, "data"@)->0, "market_id"@) {
            Some(t) => id_of(t),
            None => None,
        }),
{
}

/// The checksum that a document gives is its number's low thirty-two bits, and
/// zero where it gives no number.
pub proof fn law_expected_checksum(tree: JsonTree)
    ensures
        match member(tree, "checksum"@) {
            Some(JsonTree::Number(Some(n), _)) => expected_checksum(tree) == n % 0x1_0000_0000,
            _ => expected_checksum(tree) == 0,
        },
{
}

/// A document that is not passed over, and whose prices are numbers, replaces the
/// book of its market where its kind is `snapshot`, and otherwise brings it up to
/// date, with the bids and the asks of its data. Other books stay.
pub proof fn law_books_follow_documents(v: CheckerView, tree: JsonTree, id: u64, other: u64)
    requires
        !is_skipped(tree),
        is_priced(tree),
        document_market(tree) == Some(id),
        other != id,
    ensures
        ({
            let bids = levels_under(member(tree, "data"@)->0, "bids"@);
            let asks = levels_under(member(tree, "data"@)->0, "asks"@);
            &&& kind_of(tree) == "snapshot"@ ==> v.after(tree).book(id)
                == MarketBookView::snapshot(bids, asks)
            &&& kind_of(tree) != "snapshot"@ ==> v.after(tree).book(id) == v.book(
                id,
            ).after_update(bids, asks)
            &&& v.after(tree).book(other) == v.book(other)
        }),
{
}

/// A document whose prices are not all numbers, or that is passed over, changes
/// nothing.
pub proof fn law_unpriced_changes_nothing(v: CheckerView, tree: JsonTree, i: int)
    ensures
        is_skipped(tree) ==> v.after(tree) == v,
        ({
            let bids = levels_under(member(tree, "data"@)->0, "bids"@);
            let asks = levels_under(member(tree, "data"@)->0, "asks"@);
            (0 <= i < bids.len() && decimal_value(bids[i].price) is None) || (0 <= i < asks.len()
                && decimal_value(asks[i].price) is None) ==> v.after(tree) == v
        }),
{
}

/// An update is counted as checked where the book after it can be summed
/// strictly: as good exactly where the document's checksum is that of the book,
/// and as bad exactly where it is another. A snapshot is not counted.
pub proof fn law_checks_count(v: CheckerView, tree: JsonTree, id: u64)
    requires
        !is_skipped(tree),
        is_priced(tree),
        document_market(tree) == Some(id),
    ensures
        ({
            let w = v.after(tree);
            let bids = side_levels(w.book(id).bids);
            let asks = side_levels(w.book(id).asks);
            if kind_of(tree) == "snapshot"@ || !all_numbers_fit(checksum_fields(bids, asks)) {
                w.count == v.count && w.ok_count == v.ok_count && w.fail_count == v.fail_count
            } else if book_checksum(bids, asks) == expected_checksum(tree) {
                w.count == v.count + 1 && w.ok_count == v.ok_count + 1 && w.fail_count
                    == v.fail_count
            } else {
                w.count == v.count + 1 && w.ok_count == v.ok_count && w.fail_count == v.fail_count
                    + 1
            }
        }),
{
}

/// What is reported of a document: nothing of one that is passed over, what is
/// wrong of one that cannot be read, how many levels a snapshot leaves, and of an
/// update what it was checked against. Every fiftieth check reports the counts,
/// and the two hundredth is the last.
pub proof fn law_outcome_of_document(r: CheckOutcome, tree: JsonTree, v: CheckerView)
    requires
        is_outcome_of(r, tree, v),
    ensures
        (r is Skipped) == is_skipped(tree),
        (r is Unpriced) == (!is_skipped(tree) && !is_priced(tree)),
        (r is Snapshot) == (!is_skipped(tree) && is_priced(tree) && kind_of(tree) == "snapshot"@),
        r is Unsummable || r is Checked ==> !is_skipped(tree) && is_priced(tree) && kind_of(tree)
            != "snapshot"@,
        r matches CheckOutcome::Snapshot { market_id, bids, asks } ==> {
            let book = v.after(tree).book(market_id);
            &&& document_market(tree) == Some(market_id)
            &&& bids == side_levels(book.bids).len()
            &&& asks == side_levels(book.asks).len()
        },
        r is Unsummable ==> {
            let book = v.after(tree).book(document_market(tree)->0);
            !all_numbers_fit(checksum_fields(side_levels(book.bids), side_levels(book.asks)))
        },
        r matches CheckOutcome::Checked { market_id, check, count, report, done } ==> {
            let book = v.after(tree).book(market_id);
            &&& document_market(tree) == Some(market_id)
            &&& all_numbers_fit(
                checksum_fields(side_levels(book.bids), side_levels(book.asks)),
            )
            &&& check.computed == book_checksum(side_levels(book.bids), side_levels(book.asks))
            &&& check.expected == expected_checksum(tree)
            &&& check.matched == (check.computed == check.expected)
            &&& check.bids == side_levels(book.bids).len()
            &&& check.asks == side_levels(book.asks).len()
            &&& count == v.count + 1
            &&& report == (count % 50 == 0)
            &&& done == (count == 200)
        },
{
}

/// What the checker shows is what its fields hold.
pub proof fn law_checker_shows_its_fields(c: Checker)
    ensures
        c@.books == c.books@,
        c@.count == c.count,
        c@.ok_count == c.ok_count,
        c@.fail_count == c.fail_count,
{
}

/// The book of a market that no document has reached is empty.
pub proof fn law_unknown_markets(v: CheckerView, id: u64)
    ensures
        !v.books.dom().contains(id) ==> v.book(id).bids.dom().len() == 0 && v.book(
            id,
        ).asks.dom().len() == 0,
        v.books.dom().contains(id) ==> v.book(id) == v.books[id],
{
}

/// A document is priced exactly where each price of its bids and asks is a
/// number.
pub proof fn law_priced(tree: JsonTree)
    ensures
        ({
            let bids = levels_under(member(tree, "data"@)->0, "bids"@);
            let asks = levels_under(member(tree, "data"@)->0, "asks"@);
            is_priced(tree) == {
                &&& forall|i: int|
                    0 <= i < bids.len() ==> decimal_value((#[trigger] bids[i]).price) is Some
                &&& forall|i: int|
                    0 <= i < asks.len() ==> decimal_value((#[trigger] asks[i]).price) is Some
            }
        }),
{
}

} // verus!
