//! Order books kept from snapshots and updates.

use vstd::prelude::*;

use crate::decimal::{
    amount_less, decimal_value, lemma_pow10_pos, lemma_pow10_sum, pow10, read_amount, Amount,
    MAX_SCALE,
};
use crate::text::same_text;

verus! {

/// One level of a book as the exchange writes it.
#[derive(Debug)]
pub struct OrderbookLevel {
    pub price: String,
    pub quantity: String,
}

pub struct LevelView {
    pub price: Seq<char>,
    pub quantity: Seq<char>,
}

impl View for OrderbookLevel {
    type V = LevelView;

    open spec fn view(&self) -> LevelView {
        LevelView { price: self.price@, quantity: self.quantity@ }
    }
}

/// The texts of a list of levels.
pub open spec fn level_views(levels: Seq<OrderbookLevel>) -> Seq<LevelView> {
    levels.map_values(|l: OrderbookLevel| l@)
}

/// The number that a price stands for, in units of the smallest decimal place.
pub open spec fn price_key(parts: (bool, nat, nat)) -> int {
    let units = parts.1 * pow10((MAX_SCALE - parts.2) as nat);
    if parts.0 {
        -units
    } else {
        units as int
    }
}

/// A side of a book by the number that each price stands for.
pub type SideView = Map<int, LevelView>;

/// A side after a level of a snapshot: the level stands at its price. A level
/// whose price is not a number is passed over.
pub open spec fn placed(side: SideView, level: LevelView) -> SideView {
    match decimal_value(level.price) {
        Some(v) => side.insert(price_key(v), level),
        None => side,
    }
}

/// A side after a level of an update: a quantity of `0` takes the level at the
/// price away, any other replaces it. A level whose price is not a number is
/// passed over.
pub open spec fn updated(side: SideView, level: LevelView) -> SideView {
    match decimal_value(level.price) {
        Some(v) => if level.quantity == seq!['0'] {
            side.remove(price_key(v))
        } else {
            side.insert(price_key(v), level)
        },
        None => side,
    }
}

pub open spec fn placed_all(side: SideView, levels: Seq<LevelView>) -> SideView
    decreases levels.len(),
{
    if levels.len() == 0 {
        side
    } else {
        placed(placed_all(side, levels.drop_last()), levels.last())
    }
}

pub open spec fn updated_all(side: SideView, levels: Seq<LevelView>) -> SideView
    decreases levels.len(),
{
    if levels.len() == 0 {
        side
    } else {
        updated(updated_all(side, levels.drop_last()), levels.last())
    }
}

/// Whether the price of every level is a number.
pub open spec fn all_priced(levels: Seq<LevelView>) -> bool {
    forall|i: int| 0 <= i < levels.len() ==> decimal_value((#[trigger] levels[i]).price) is Some
}

pub struct BookEntry {
    pub amount: Amount,
    pub level: OrderbookLevel,
}

/// One side of a book: its levels in ascending order of price.
pub struct Book {
    pub entries: Vec<BookEntry>,
}

impl Book {
    /// Prices are in strictly ascending order.
    pub open spec fn wf(&self) -> bool {
        &&& forall|i: int| 0 <= i < self.entries@.len() ==> (#[trigger] self.entries@[i]).amount.wf()
        &&& forall|i: int, j: int|
            #![trigger self.entries@[i], self.entries@[j]]
            0 <= i < j < self.entries@.len() ==> self.entries@[i].amount.key()
                < self.entries@[j].amount.key()
    }

    pub open spec fn holds_at(&self, key: int, i: int) -> bool {
        0 <= i < self.entries@.len() && self.entries@[i].amount.key() == key
    }

    /// The levels in ascending order of price.
    pub open spec fn levels(&self) -> Seq<LevelView> {
        self.entries@.map_values(|e: BookEntry| e.level@)
    }
}

impl View for Book {
    type V = SideView;

    open spec fn view(&self) -> SideView {
        Map::new(
            |key: int| exists|i: int| self.holds_at(key, i),
            |key: int| self.entries@[choose|i: int| self.holds_at(key, i)].level@,
        )
    }
}

proof fn lemma_entry_in_view(book: Book, i: int)
    requires
        book.wf(),
        0 <= i < book.entries@.len(),
    ensures
        book@.dom().contains(book.entries@[i].amount.key()),
        book@[book.entries@[i].amount.key()] == book.entries@[i].level@,
{
    let key = book.entries@[i].amount.key();
    assert(book.holds_at(key, i));
    let j = choose|j: int| book.holds_at(key, j);
    assert(i == j) by {
        if i < j {
            assert(book.entries@[i].amount.key() < book.entries@[j].amount.key());
        } else if j < i {
            assert(book.entries@[j].amount.key() < book.entries@[i].amount.key());
        }
    }
}

proof fn lemma_inserted(before: Book, after: Book, at: int, entry: BookEntry)
    requires
        before.wf(),
        0 <= at <= before.entries@.len(),
        after.entries@ == before.entries@.insert(at, entry),
        entry.amount.wf(),
        forall|j: int|
            0 <= j < at ==> (#[trigger] before.entries@[j]).amount.key() < entry.amount.key(),
        forall|j: int|
            at <= j < before.entries@.len() ==> (#[trigger] before.entries@[j]).amount.key()
                > entry.amount.key(),
    ensures
        after.wf(),
        after@ == before@.insert(entry.amount.key(), entry.level@),
{
    let key = entry.amount.key();
    assert forall|i: int, j: int|
        #![trigger after.entries@[i], after.entries@[j]]
        0 <= i < j < after.entries@.len() implies after.entries@[i].amount.key()
        < after.entries@[j].amount.key() by {
        let b = before.entries@;
        if i < at {
            assert(after.entries@[i] == b[i]);
        } else if i > at {
            assert(after.entries@[i] == b[i - 1]);
        }
        if j < at {
            assert(after.entries@[j] == b[j]);
        } else if j > at {
            assert(after.entries@[j] == b[j - 1]);
        }
    }
    assert forall|i: int| 0 <= i < after.entries@.len() implies (
    #[trigger] after.entries@[i]).amount.wf() by {
        if i < at {
            assert(after.entries@[i] == before.entries@[i]);
        } else if i > at {
            assert(after.entries@[i] == before.entries@[i - 1]);
        }
    }
    let target = before@.insert(key, entry.level@);
    assert forall|k: int| after@.dom().contains(k) == target.dom().contains(k) by {
        if after@.dom().contains(k) {
            let i = choose|i: int| after.holds_at(k, i);
            if i < at {
                assert(after.entries@[i] == before.entries@[i]);
                assert(before.holds_at(k, i));
            } else if i > at {
                assert(after.entries@[i] == before.entries@[i - 1]);
                assert(before.holds_at(k, i - 1));
            }
        }
        if target.dom().contains(k) {
            if k == key {
                assert(after.holds_at(k, at));
            } else {
                let i = choose|i: int| before.holds_at(k, i);
                if i < at {
                    assert(after.entries@[i] == before.entries@[i]);
                    assert(after.holds_at(k, i));
                } else {
                    assert(after.entries@[i + 1] == before.entries@[i]);
                    assert(after.holds_at(k, i + 1));
                }
            }
        }
    }
    assert forall|k: int| after@.dom().contains(k) implies after@[k] == target[k] by {
        let i = choose|i: int| after.holds_at(k, i);
        lemma_entry_in_view(after, i);
        if i < at {
            assert(after.entries@[i] == before.entries@[i]);
            lemma_entry_in_view(before, i);
        } else if i > at {
            assert(after.entries@[i] == before.entries@[i - 1]);
            lemma_entry_in_view(before, i - 1);
        }
    }
    assert(after@ =~= target);
}

proof fn lemma_removed(before: Book, after: Book, at: int)
    requires
        before.wf(),
        0 <= at < before.entries@.len(),
        after.entries@ == before.entries@.remove(at),
    ensures
        after.wf(),
        after@ == before@.remove(before.entries@[at].amount.key()),
{
    let key = before.entries@[at].amount.key();
    let b = before.entries@;
    assert forall|i: int| 0 <= i < after.entries@.len() implies #[trigger] after.entries@[i] == (
    if i < at {
        b[i]
    } else {
        b[i + 1]
    }) by {}
    assert(after.wf());
    let target = before@.remove(key);
    assert forall|k: int| after@.dom().contains(k) == target.dom().contains(k) by {
        if after@.dom().contains(k) {
            let i = choose|i: int| after.holds_at(k, i);
            let j = if i < at {
                i
            } else {
                i + 1
            };
            assert(after.entries@[i] == b[j]);
            assert(before.holds_at(k, j));
            assert(k != key);
        }
        if target.dom().contains(k) {
            let i = choose|i: int| before.holds_at(k, i);
            assert(i != at);
            let j = if i < at {
                i
            } else {
                i - 1
            };
            assert(after.entries@[j] == b[i]);
            assert(after.holds_at(k, j));
        }
    }
    assert forall|k: int| after@.dom().contains(k) implies after@[k] == target[k] by {
        let i = choose|i: int| after.holds_at(k, i);
        let j = if i < at {
            i
        } else {
            i + 1
        };
        assert(after.entries@[i] == b[j]);
        lemma_entry_in_view(after, i);
        lemma_entry_in_view(before, j);
    }
    assert(after@ =~= target);
}

impl Book {
    pub fn new() -> (r: Self)
        ensures
            r.wf(),
            r@ == SideView::empty(),
    {
        let r = Book { entries: Vec::new() };
        assert(r@ =~= SideView::empty());
        r
    }

    /// How many levels the side has.
    pub fn len(&self) -> (r: usize)
        requires
            self.wf(),
        ensures
            r == side_levels(self@).len(),
    {
        proof {
            lemma_levels_of_view(*self);
        }
        self.entries.len()
    }

    /// The first place at which the price is not below `amount`, and whether
    /// it is that price.
    fn find(&self, amount: Amount) -> (r: (usize, bool))
        requires
            self.wf(),
            amount.wf(),
        ensures
            r.0 <= self.entries@.len(),
            forall|j: int|
                0 <= j < r.0 ==> (#[trigger] self.entries@[j]).amount.key() < amount.key(),
            r.1 ==> self.holds_at(amount.key(), r.0 as int),
            forall|j: int|
                r.0 <= j < self.entries@.len() && !(r.1 && j == r.0) ==> (
                #[trigger] self.entries@[j]).amount.key() > amount.key(),
    {
        let mut low: usize = 0;
        let mut high: usize = self.entries.len();
        while low < high
            invariant
                self.wf(),
                amount.wf(),
                low <= high <= self.entries@.len(),
                forall|j: int|
                    0 <= j < low ==> (#[trigger] self.entries@[j]).amount.key() < amount.key(),
                forall|j: int|
                    high <= j < self.entries@.len() ==> (#[trigger] self.entries@[j]).amount.key()
                        >= amount.key(),
            decreases high - low,
        {
            let mid: usize = low + (high - low) / 2;
            if amount_less(self.entries[mid].amount, amount) {
                low = mid + 1;
            } else {
                high = mid;
            }
        }
        if low < self.entries.len() && !amount_less(amount, self.entries[low].amount) {
            (low, true)
        } else {
            (low, false)
        }
    }

    /// Puts a level at its price, in place of the one that stands there.
    pub fn insert(&mut self, amount: Amount, level: OrderbookLevel)
        requires
            old(self).wf(),
            amount.wf(),
        ensures
            final(self).wf(),
            final(self)@ == old(self)@.insert(amount.key(), level@),
    {
        let (at, found) = self.find(amount);
        let ghost before = *self;
        let entry = BookEntry { amount, level };
        if found {
            self.entries.remove(at);
            let ghost middle = *self;
            proof {
                lemma_removed(before, middle, at as int);
            }
            self.entries.insert(at, entry);
            proof {
                assert forall|j: int| 0 <= j < at implies (
                #[trigger] middle.entries@[j]).amount.key() < amount.key() by {
                    assert(middle.entries@[j] == before.entries@[j]);
                }
                assert forall|j: int| at <= j < middle.entries@.len() implies (
                #[trigger] middle.entries@[j]).amount.key() > amount.key() by {
                    assert(middle.entries@[j] == before.entries@[j + 1]);
                }
                lemma_inserted(middle, *self, at as int, entry);
                assert(before@.remove(amount.key()).insert(amount.key(), level@)
                    =~= before@.insert(amount.key(), level@));
            }
        } else {
            self.entries.insert(at, entry);
            proof {
                lemma_inserted(before, *self, at as int, entry);
            }
        }
    }

    /// Takes away the level at a price, where there is one.
    pub fn remove(&mut self, amount: Amount)
        requires
            old(self).wf(),
            amount.wf(),
        ensures
            final(self).wf(),
            final(self)@ == old(self)@.remove(amount.key()),
    {
        let (at, found) = self.find(amount);
        let ghost before = *self;
        if found {
            self.entries.remove(at);
            proof {
                lemma_removed(before, *self, at as int);
            }
        } else {
            proof {
                assert(!before@.dom().contains(amount.key())) by {
                    if before@.dom().contains(amount.key()) {
                        let i = choose|i: int| before.holds_at(amount.key(), i);
                        assert(before.entries@[i].amount.key() == amount.key());
                    }
                }
                assert(before@.remove(amount.key()) =~= before@);
            }
        }
    }

    /// Puts the levels of a snapshot in.
    pub fn place_all(&mut self, levels: &Vec<OrderbookLevel>)
        requires
            old(self).wf(),
        ensures
            final(self).wf(),
            final(self)@ == placed_all(old(self)@, level_views(levels@)),
    {
        let ghost views = level_views(levels@);
        let ghost before = self@;
        let mut i: usize = 0;
        assert(views.take(0) =~= Seq::empty());
        while i < levels.len()
            invariant
                views == level_views(levels@),
                i <= levels@.len(),
                self.wf(),
                self@ == placed_all(before, views.take(i as int)),
            decreases levels@.len() - i,
        {
            proof {
                assert(views.take(i + 1).drop_last() =~= views.take(i as int));
                assert(views.take(i + 1).last() == levels@[i as int]@);
            }
            match read_amount(levels[i].price.as_str()) {
                Some(a) => {
                    let level = OrderbookLevel {
                        price: levels[i].price.clone(),
                        quantity: levels[i].quantity.clone(),
                    };
                    assert(price_key(a.parts()) == a.key());
                    self.insert(a, level);
                },
                None => {},
            }
            i += 1;
        }
        assert(views.take(i as int) =~= views);
    }

    /// Applies the levels of an update.
    pub fn update_all(&mut self, levels: &Vec<OrderbookLevel>)
        requires
            old(self).wf(),
        ensures
            final(self).wf(),
            final(self)@ == updated_all(old(self)@, level_views(levels@)),
    {
        let ghost views = level_views(levels@);
        let ghost before = self@;
        let mut i: usize = 0;
        assert(views.take(0) =~= Seq::empty());
        while i < levels.len()
            invariant
                views == level_views(levels@),
                i <= levels@.len(),
                self.wf(),
                self@ == updated_all(before, views.take(i as int)),
            decreases levels@.len() - i,
        {
            proof {
                assert(views.take(i + 1).drop_last() =~= views.take(i as int));
                assert(views.take(i + 1).last() == levels@[i as int]@);
                reveal_strlit("0");
                assert("0"@ =~= seq!['0']);
            }
            match read_amount(levels[i].price.as_str()) {
                Some(a) => {
                    assert(price_key(a.parts()) == a.key());
                    if same_text(levels[i].quantity.as_str(), "0") {
                        self.remove(a);
                    } else {
                        let level = OrderbookLevel {
                            price: levels[i].price.clone(),
                            quantity: levels[i].quantity.clone(),
                        };
                        self.insert(a, level);
                    }
                },
                None => {},
            }
            i += 1;
        }
        assert(views.take(i as int) =~= views);
    }
}

proof fn lemma_strictly_ascending_unique(a: Seq<int>, b: Seq<int>)
    requires
        forall|i: int, j: int| 0 <= i < j < a.len() ==> a[i] < a[j],
        forall|i: int, j: int| 0 <= i < j < b.len() ==> b[i] < b[j],
        forall|k: int| a.contains(k) == b.contains(k),
    ensures
        a == b,
    decreases a.len(),
{
    if a.len() == 0 {
        if b.len() > 0 {
            assert(b.contains(b[0]));
        }
        assert(a =~= b);
    } else {
        assert(a.contains(a.last()));
        let m = choose|m: int| 0 <= m < b.len() && b[m] == a.last();
        assert(b.contains(b.last()));
        let n = choose|n: int| 0 <= n < a.len() && a[n] == b.last();
        assert(a.last() == b.last());
        let x = a.drop_last();
        let y = b.drop_last();
        assert forall|k: int| x.contains(k) == y.contains(k) by {
            if x.contains(k) {
                let i = choose|i: int| 0 <= i < x.len() && x[i] == k;
                assert(a[i] == k);
                assert(b.contains(k));
                let j = choose|j: int| 0 <= j < b.len() && b[j] == k;
                assert(y[j] == k);
            }
            if y.contains(k) {
                let i = choose|i: int| 0 <= i < y.len() && y[i] == k;
                assert(b[i] == k);
                assert(a.contains(k));
                let j = choose|j: int| 0 <= j < a.len() && a[j] == k;
                assert(x[j] == k);
            }
        }
        lemma_strictly_ascending_unique(x, y);
        assert(a =~= x.push(a.last()));
        assert(b =~= y.push(b.last()));
    }
}

/// Whether a list is the prices of a side, each once, in ascending order.
pub open spec fn lists_prices(side: SideView, keys: Seq<int>) -> bool {
    &&& forall|i: int, j: int|
        #![trigger keys[i], keys[j]]
        0 <= i < j < keys.len() ==> keys[i] < keys[j]
    &&& forall|k: int| #[trigger] keys.contains(k) == side.dom().contains(k)
}

/// The levels of a side in ascending order of price.
pub open spec fn side_levels(side: SideView) -> Seq<LevelView> {
    let keys = choose|keys: Seq<int>| lists_prices(side, keys);
    keys.map_values(|k: int| side[k])
}

/// A book lists the levels of its side in ascending order of price.
pub proof fn lemma_levels_of_view(book: Book)
    requires
        book.wf(),
    ensures
        book.levels() == side_levels(book@),
{
    let keys = book.entries@.map_values(|e: BookEntry| e.amount.key());
    assert forall|k: int| #[trigger] keys.contains(k) == book@.dom().contains(k) by {
        if keys.contains(k) {
            let i = choose|i: int| 0 <= i < keys.len() && keys[i] == k;
            lemma_entry_in_view(book, i);
        }
        if book@.dom().contains(k) {
            let i = choose|i: int| book.holds_at(k, i);
            assert(keys[i] == k);
        }
    }
    assert(lists_prices(book@, keys));
    let chosen = choose|keys: Seq<int>| lists_prices(book@, keys);
    lemma_strictly_ascending_unique(keys, chosen);
    assert forall|i: int| 0 <= i < keys.len() implies book.levels()[i] == side_levels(
        book@,
    )[i] by {
        lemma_entry_in_view(book, i);
    }
    assert(book.levels() =~= side_levels(book@));
}

/// A side that lists its prices by `keys` has as many levels as prices, and the
/// level of rank `i` is the one held at the price of rank `i`: levels come in
/// ascending order of price, each once, and none is left out.
pub proof fn law_side_levels(side: SideView, keys: Seq<int>)
    requires
        lists_prices(side, keys),
    ensures
        side_levels(side) == keys.map_values(|k: int| side[k]),
{
    let chosen = choose|keys: Seq<int>| lists_prices(side, keys);
    lemma_strictly_ascending_unique(keys, chosen);
}

/// A level put in at a price and then updated with the quantity `0` is gone,
/// and the other prices are as they were.
pub proof fn law_zero_quantity_removes(side: SideView, level: LevelView, zero: LevelView)
    requires
        decimal_value(level.price) is Some,
        decimal_value(zero.price) is Some,
        price_key(decimal_value(level.price)->0) == price_key(decimal_value(zero.price)->0),
        zero.quantity == seq!['0'],
    ensures
        updated(placed(side, level), zero) == side.remove(
            price_key(decimal_value(level.price)->0),
        ),
        updated(updated(side, level), zero) == side.remove(
            price_key(decimal_value(level.price)->0),
        ),
{
    let key = price_key(decimal_value(level.price)->0);
    assert(side.insert(key, level).remove(key) =~= side.remove(key));
    assert(side.remove(key).remove(key) =~= side.remove(key));
}

/// Updates at different prices can be taken in either order.
pub proof fn law_updates_commute(side: SideView, a: LevelView, b: LevelView)
    requires
        decimal_value(a.price) is Some && decimal_value(b.price) is Some ==> price_key(
            decimal_value(a.price)->0,
        ) != price_key(decimal_value(b.price)->0),
    ensures
        updated(updated(side, a), b) == updated(updated(side, b), a),
{
    assert(updated(updated(side, a), b) =~= updated(updated(side, b), a));
}

/// An update that comes again changes nothing.
pub proof fn law_update_again(side: SideView, level: LevelView)
    ensures
        updated(updated(side, level), level) == updated(side, level),
{
    assert(updated(updated(side, level), level) =~= updated(side, level));
}

// ---------------------------------------------------------------------------
// Both sides of a market
// ---------------------------------------------------------------------------

/// Both sides of the book of one market.
pub struct MarketBook {
    pub bids: Book,
    pub asks: Book,
}

#[verifier::ext_equal]
pub struct MarketBookView {
    pub bids: SideView,
    pub asks: SideView,
}

impl MarketBookView {
    pub open spec fn empty() -> MarketBookView {
        MarketBookView { bids: SideView::empty(), asks: SideView::empty() }
    }

    /// The book that a snapshot describes; what was there before is gone.
    pub open spec fn snapshot(bids: Seq<LevelView>, asks: Seq<LevelView>) -> MarketBookView {
        MarketBookView {
            bids: placed_all(SideView::empty(), bids),
            asks: placed_all(SideView::empty(), asks),
        }
    }

    /// The book after an update.
    pub open spec fn after_update(
        self,
        bids: Seq<LevelView>,
        asks: Seq<LevelView>,
    ) -> MarketBookView {
        MarketBookView { bids: updated_all(self.bids, bids), asks: updated_all(self.asks, asks) }
    }
}

impl View for MarketBook {
    type V = MarketBookView;

    open spec fn view(&self) -> MarketBookView {
        MarketBookView { bids: self.bids@, asks: self.asks@ }
    }
}

impl MarketBook {
    pub open spec fn wf(&self) -> bool {
        self.bids.wf() && self.asks.wf()
    }

    pub fn new() -> (r: Self)
        ensures
            r.wf(),
            r@ == MarketBookView::empty(),
    {
        MarketBook { bids: Book::new(), asks: Book::new() }
    }

    /// Replaces both sides by those of a snapshot.
    pub fn snapshot(&mut self, bids: &Vec<OrderbookLevel>, asks: &Vec<OrderbookLevel>)
        ensures
            final(self).wf(),
            final(self)@ == MarketBookView::snapshot(level_views(bids@), level_views(asks@)),
            final(self).bids@ == placed_all(SideView::empty(), level_views(bids@)),
            final(self).asks@ == placed_all(SideView::empty(), level_views(asks@)),
    {
        self.bids = Book::new();
        self.asks = Book::new();
        self.bids.place_all(bids);
        self.asks.place_all(asks);
    }

    /// Applies an update to both sides.
    pub fn update(&mut self, bids: &Vec<OrderbookLevel>, asks: &Vec<OrderbookLevel>)
        requires
            old(self).wf(),
        ensures
            final(self).wf(),
            final(self)@ == old(self)@.after_update(level_views(bids@), level_views(asks@)),
            final(self).bids@ == updated_all(old(self).bids@, level_views(bids@)),
            final(self).asks@ == updated_all(old(self).asks@, level_views(asks@)),
    {
        self.bids.update_all(bids);
        self.asks.update_all(asks);
    }
}

/// Whether the price of every level is a number.
pub fn prices_readable(levels: &Vec<OrderbookLevel>) -> (r: bool)
    ensures
        r == all_priced(level_views(levels@)),
{
    let ghost views = level_views(levels@);
    let mut i: usize = 0;
    while i < levels.len()
        invariant
            views == level_views(levels@),
            i <= levels@.len(),
            forall|k: int|
                0 <= k < i ==> decimal_value((#[trigger] views[k]).price) is Some,
        decreases levels@.len() - i,
    {
        assert(views[i as int] == levels@[i as int]@);
        if read_amount(levels[i].price.as_str()).is_none() {
            return false;
        }
        i += 1;
    }
    true
}

proof fn lemma_placed_all_at(side: SideView, levels: Seq<LevelView>, key: int, last: int)
    requires
        -1 <= last < levels.len(),
        last >= 0 ==> decimal_value(levels[last].price) is Some && price_key(
            decimal_value(levels[last].price)->0,
        ) == key,
        forall|j: int|
            last < j < levels.len() ==> !(decimal_value((#[trigger] levels[j]).price) is Some
                && price_key(decimal_value(levels[j].price)->0) == key),
    ensures
        last >= 0 ==> placed_all(side, levels).dom().contains(key) && placed_all(side, levels)[key]
            == levels[last],
        last < 0 ==> placed_all(side, levels).dom().contains(key) == side.dom().contains(key),
        last < 0 && side.dom().contains(key) ==> placed_all(side, levels)[key] == side[key],
    decreases levels.len(),
{
    if levels.len() > 0 && last < levels.len() - 1 {
        let rest = levels.drop_last();
        assert(levels[levels.len() - 1] == levels.last());
        assert forall|j: int| last < j < rest.len() implies !(decimal_value(
            (#[trigger] rest[j]).price,
        ) is Some && price_key(decimal_value(rest[j].price)->0) == key) by {
            assert(rest[j] == levels[j]);
        }
        lemma_placed_all_at(side, rest, key, last);
    }
}

proof fn lemma_updated_all_at(side: SideView, levels: Seq<LevelView>, key: int, last: int)
    requires
        -1 <= last < levels.len(),
        last >= 0 ==> decimal_value(levels[last].price) is Some && price_key(
            decimal_value(levels[last].price)->0,
        ) == key,
        forall|j: int|
            last < j < levels.len() ==> !(decimal_value((#[trigger] levels[j]).price) is Some
                && price_key(decimal_value(levels[j].price)->0) == key),
    ensures
        last >= 0 ==> updated_all(side, levels).dom().contains(key) == (levels[last].quantity
            != seq!['0']),
        last >= 0 && levels[last].quantity != seq!['0'] ==> updated_all(side, levels)[key]
            == levels[last],
        last < 0 ==> updated_all(side, levels).dom().contains(key) == side.dom().contains(key),
        last < 0 && side.dom().contains(key) ==> updated_all(side, levels)[key] == side[key],
    decreases levels.len(),
{
    if levels.len() > 0 && last < levels.len() - 1 {
        let rest = levels.drop_last();
        assert(levels[levels.len() - 1] == levels.last());
        assert forall|j: int| last < j < rest.len() implies !(decimal_value(
            (#[trigger] rest[j]).price,
        ) is Some && price_key(decimal_value(rest[j].price)->0) == key) by {
            assert(rest[j] == levels[j]);
        }
        lemma_updated_all_at(side, rest, key, last);
    }
}

/// After a snapshot a side holds a price where a level of that side's list has
/// it, and there the last such level; at no other price does it hold anything,
/// whatever it held before. `last` is the place of the last level of the list
/// with the price, or less than zero where there is none.
pub proof fn law_snapshot_levels(
    bids: Seq<LevelView>,
    asks: Seq<LevelView>,
    key: int,
    last_bid: int,
    last_ask: int,
)
    requires
        -1 <= last_bid < bids.len(),
        last_bid >= 0 ==> decimal_value(bids[last_bid].price) is Some && price_key(
            decimal_value(bids[last_bid].price)->0,
        ) == key,
        forall|j: int|
            last_bid < j < bids.len() ==> !(decimal_value((#[trigger] bids[j]).price) is Some
                && price_key(decimal_value(bids[j].price)->0) == key),
        -1 <= last_ask < asks.len(),
        last_ask >= 0 ==> decimal_value(asks[last_ask].price) is Some && price_key(
            decimal_value(asks[last_ask].price)->0,
        ) == key,
        forall|j: int|
            last_ask < j < asks.len() ==> !(decimal_value((#[trigger] asks[j]).price) is Some
                && price_key(decimal_value(asks[j].price)->0) == key),
    ensures
        MarketBookView::snapshot(bids, asks).bids.dom().contains(key) == (last_bid >= 0),
        last_bid >= 0 ==> MarketBookView::snapshot(bids, asks).bids[key] == bids[last_bid],
        MarketBookView::snapshot(bids, asks).asks.dom().contains(key) == (last_ask >= 0),
        last_ask >= 0 ==> MarketBookView::snapshot(bids, asks).asks[key] == asks[last_ask],
{
    lemma_placed_all_at(SideView::empty(), bids, key, last_bid);
    lemma_placed_all_at(SideView::empty(), asks, key, last_ask);
}

/// After an update a side holds at a price the last level of that side's list
/// with the price, or nothing where its quantity is `0`; at a price that no level
/// of the list has it holds what it held. `last` is the place of the last level
/// of the list with the price, or less than zero where there is none.
pub proof fn law_update_levels(
    book: MarketBookView,
    bids: Seq<LevelView>,
    asks: Seq<LevelView>,
    key: int,
    last_bid: int,
    last_ask: int,
)
    requires
        -1 <= last_bid < bids.len(),
        last_bid >= 0 ==> decimal_value(bids[last_bid].price) is Some && price_key(
            decimal_value(bids[last_bid].price)->0,
        ) == key,
        forall|j: int|
            last_bid < j < bids.len() ==> !(decimal_value((#[trigger] bids[j]).price) is Some
                && price_key(decimal_value(bids[j].price)->0) == key),
        -1 <= last_ask < asks.len(),
        last_ask >= 0 ==> decimal_value(asks[last_ask].price) is Some && price_key(
            decimal_value(asks[last_ask].price)->0,
        ) == key,
        forall|j: int|
            last_ask < j < asks.len() ==> !(decimal_value((#[trigger] asks[j]).price) is Some
                && price_key(decimal_value(asks[j].price)->0) == key),
    ensures
        ({
            let after = book.after_update(bids, asks);
            &&& after.bids.dom().contains(key) == (if last_bid >= 0 {
                bids[last_bid].quantity != seq!['0']
            } else {
                book.bids.dom().contains(key)
            })
            &&& after.bids.dom().contains(key) ==> after.bids[key] == (if last_bid >= 0 {
                bids[last_bid]
            } else {
                book.bids[key]
            })
            &&& after.asks.dom().contains(key) == (if last_ask >= 0 {
                asks[last_ask].quantity != seq!['0']
            } else {
                book.asks.dom().contains(key)
            })
            &&& after.asks.dom().contains(key) ==> after.asks[key] == (if last_ask >= 0 {
                asks[last_ask]
            } else {
                book.asks[key]
            })
        }),
{
    lemma_updated_all_at(book.bids, bids, key, last_bid);
    lemma_updated_all_at(book.asks, asks, key, last_ask);
}

/// Each price, be it a bid or an ask, has a last level in a list, or none.
pub proof fn law_last_level(levels: Seq<LevelView>, key: int) -> (last: int)
    ensures
        -1 <= last < levels.len(),
        last >= 0 ==> decimal_value(levels[last].price) is Some && price_key(
            decimal_value(levels[last].price)->0,
        ) == key,
        forall|j: int|
            last < j < levels.len() ==> !(decimal_value((#[trigger] levels[j]).price) is Some
                && price_key(decimal_value(levels[j].price)->0) == key),
    decreases levels.len(),
{
    if levels.len() == 0 {
        -1
    } else if decimal_value(levels.last().price) is Some && price_key(
        decimal_value(levels.last().price)->0,
    ) == key {
        levels.len() - 1
    } else {
        let last = law_last_level(levels.drop_last(), key);
        assert forall|j: int| last < j < levels.len() implies !(decimal_value(
            (#[trigger] levels[j]).price,
        ) is Some && price_key(decimal_value(levels[j].price)->0) == key) by {
            if j < levels.len() - 1 {
                assert(levels.drop_last()[j] == levels[j]);
            }
        }
        last
    }
}

/// Prices are held and ordered as the numbers that they are: the key of one is
/// below that of another exactly where its number is, whatever the scales, and
/// two keys are equal exactly where the numbers are.
pub proof fn law_price_order(a: (bool, nat, nat), b: (bool, nat, nat))
    requires
        a.2 <= 28,
        b.2 <= 28,
    ensures
        ({
            let x: int = if a.0 {
                -(a.1 as int)
            } else {
                a.1 as int
            };
            let y: int = if b.0 {
                -(b.1 as int)
            } else {
                b.1 as int
            };
            &&& (price_key(a) < price_key(b)) == (x * pow10(b.2) < y * pow10(a.2))
            &&& (price_key(a) == price_key(b)) == (x * pow10(b.2) == y * pow10(a.2))
        }),
{
    let x: int = if a.0 {
        -(a.1 as int)
    } else {
        a.1 as int
    };
    let y: int = if b.0 {
        -(b.1 as int)
    } else {
        b.1 as int
    };
    let p = pow10(a.2) as int;
    let q = pow10(b.2) as int;
    let u = pow10((28 - a.2) as nat) as int;
    let v = pow10((28 - b.2) as nat) as int;
    let t = pow10(28) as int;
    lemma_pow10_sum(a.2, (28 - a.2) as nat);
    lemma_pow10_sum(b.2, (28 - b.2) as nat);
    lemma_pow10_pos(a.2);
    lemma_pow10_pos(b.2);
    lemma_pow10_pos((28 - a.2) as nat);
    lemma_pow10_pos((28 - b.2) as nat);
    lemma_pow10_pos(28);
    assert(price_key(a) == x * u) by (nonlinear_arith)
        requires
            price_key(a) == (if a.0 {
                -(a.1 * u)
            } else {
                a.1 * u
            }),
            x == (if a.0 {
                -(a.1 as int)
            } else {
                a.1 as int
            }),
    ;
    assert(price_key(b) == y * v) by (nonlinear_arith)
        requires
            price_key(b) == (if b.0 {
                -(b.1 * v)
            } else {
                b.1 * v
            }),
            y == (if b.0 {
                -(b.1 as int)
            } else {
                b.1 as int
            }),
    ;
    assert((x * u) * (p * q) == (x * q) * t) by (nonlinear_arith)
        requires
            p * u == t,
    ;
    assert((y * v) * (p * q) == (y * p) * t) by (nonlinear_arith)
        requires
            q * v == t,
    ;
    assert(p * q > 0) by (nonlinear_arith)
        requires
            p > 0,
            q > 0,
    ;
    lemma_scaled_order(x * u, y * v, p * q);
    lemma_scaled_order(x * q, y * p, t);
}

proof fn lemma_scaled_order(a: int, b: int, c: int)
    requires
        c > 0,
    ensures
        (a < b) == (a * c < b * c),
        (a == b) == (a * c == b * c),
{
    assert((a < b) == (a * c < b * c)) by (nonlinear_arith)
        requires
            c > 0,
    ;
    assert((a == b) == (a * c == b * c)) by (nonlinear_arith)
        requires
            c > 0,
    ;
}

/// The key of an amount is that of the price that it stands for.
pub proof fn law_amount_key(a: Amount)
    ensures
        a.key() == price_key((a.negative, a.magnitude as nat, a.scale as nat)),
{
}

/// Where the prices of a side, each once and from the lowest up, are these, the
/// side lists its levels in just that order.
pub proof fn law_side_levels_ascend(side: SideView, keys: Seq<int>)
    requires
        forall|i: int, j: int|
            #![trigger keys[i], keys[j]]
            0 <= i < j < keys.len() ==> keys[i] < keys[j],
        forall|i: int| 0 <= i < keys.len() ==> side.dom().contains(#[trigger] keys[i]),
        forall|k: int| #[trigger]
            side.dom().contains(k) ==> exists|i: int| 0 <= i < keys.len() && keys[i] == k,
    ensures
        side_levels(side).len() == keys.len(),
        forall|i: int|
            0 <= i < keys.len() ==> #[trigger] side_levels(side)[i] == side[keys[i]],
{
    assert forall|k: int| #[trigger] keys.contains(k) == side.dom().contains(k) by {}
    law_side_levels(side, keys);
}

/// What a level and a book of a market show is what their fields hold.
pub proof fn law_book_shows_its_fields(level: OrderbookLevel, book: MarketBook)
    ensures
        level@.price == level.price@,
        level@.quantity == level.quantity@,
        book@.bids == book.bids@,
        book@.asks == book.asks@,
{
}

/// A book shows each of its entries under the key of its amount, and nothing
/// else.
pub proof fn law_book_shows_its_entries(book: Book, i: int, key: int)
    requires
        book.wf(),
    ensures
        0 <= i < book.entries@.len() ==> book@.dom().contains(book.entries@[i].amount.key())
            && book@[book.entries@[i].amount.key()] == book.entries@[i].level@,
        book@.dom().contains(key) == exists|k: int|
            0 <= k < book.entries@.len() && (#[trigger] book.entries@[k]).amount.key() == key,
{
    if 0 <= i < book.entries@.len() {
        lemma_entry_in_view(book, i);
    }
    if book@.dom().contains(key) {
        let k = choose|k: int| book.holds_at(key, k);
        assert(book.entries@[k].amount.key() == key);
    }
    if exists|k: int| 0 <= k < book.entries@.len() && (#[trigger] book.entries@[k]).amount.key()
        == key {
        let k = choose|k: int|
            0 <= k < book.entries@.len() && (#[trigger] book.entries@[k]).amount.key() == key;
        assert(book.holds_at(key, k));
    }
}

/// The views of a list of levels are those of its levels, one by one, and the
/// list is priced exactly where no level's price is other than a number.
pub proof fn law_level_views(levels: Seq<OrderbookLevel>, i: int)
    ensures
        level_views(levels).len() == levels.len(),
        0 <= i < levels.len() ==> level_views(levels)[i].price == levels[i].price@
            && level_views(levels)[i].quantity == levels[i].quantity@,
        !all_priced(level_views(levels)) == exists|k: int|
            0 <= k < levels.len() && decimal_value((#[trigger] levels[k]).price@) is None,
        MarketBookView::empty().bids.dom().len() == 0,
        MarketBookView::empty().asks.dom().len() == 0,
{
    let views = level_views(levels);
    if !all_priced(views) {
        let k = choose|k: int| 0 <= k < views.len() && decimal_value(
            (#[trigger] views[k]).price,
        ) is None;
        assert(views[k].price == levels[k].price@);
    }
    if exists|k: int| 0 <= k < levels.len() && decimal_value((#[trigger] levels[k]).price@) is None {
        let k = choose|k: int|
            0 <= k < levels.len() && decimal_value((#[trigger] levels[k]).price@) is None;
        assert(views[k].price == levels[k].price@);
    }
}

} // verus!
