//! The trades that a kline chart keeps and shows, and the largest orders around them.
use crate::float_bits::F64Bits;
use crate::math;
use crate::units::{Basis, Price, Qty, Trade};
use vstd::prelude::*;

verus! {

/// How many trades are kept to rebuild footprints from.
pub const MAX_RETAINED_TRADES: usize = 20_000;

/// How many of the trades that may be shown as bubbles are kept.
pub const MAX_RETAINED_BIG_TRADES: usize = 150_000;

/// The bits of the least value of a trade that may be shown as a bubble: a thousand.
pub const BIG_TRADE_STORAGE_FLOOR: u64 = 0x408f_4000_0000_0000;

/// How many levels of each side of the book are marked.
pub const MAX_BOOK_LEVELS: usize = 3;

/// A trade and its value in the quote currency.
#[derive(Debug, Clone, Copy, PartialEq, Eq, Structural)]
pub struct SizedTrade {
    pub trade: Trade,
    pub notional: F64Bits,
}

/// The last `cap` items, or all of them where there are not so many.
pub open spec fn last_items<T>(s: Seq<T>, cap: int) -> Seq<T> {
    s.skip(math::max_int(s.len() - cap, 0))
}

/// Removes the oldest items until at most `cap` are left.
pub fn keep_last<T: Copy>(v: &mut Vec<T>, cap: usize)
    ensures
        final(v)@ == last_items(old(v)@, cap as int),
{
    let n: usize = v.len();
    if n <= cap {
        assert(v@.skip(0) =~= v@);
        return ;
    }
    let start: usize = n - cap;
    let mut kept: Vec<T> = Vec::new();
    let mut i: usize = start;
    while i < n
        invariant
            start <= i <= n,
            n == v@.len(),
            v@ == old(v)@,
            kept@ == v@.subrange(start as int, i as int),
        decreases n - i,
    {
        kept.push(v[i]);
        assert(kept@ =~= v@.subrange(start as int, i + 1));
        i += 1;
    }
    assert(kept@ =~= v@.skip(start as int));
    *v = kept;
}

/// A trade is large enough to be kept for a bubble.
pub open spec fn is_big(t: SizedTrade) -> bool {
    t.notional.spec_ge(F64Bits { bits: BIG_TRADE_STORAGE_FLOOR })
}

/// The trades that a chart keeps.
pub struct TradeStore {
    /// The latest trades.
    pub raw_trades: Vec<Trade>,
    /// The latest large trades.
    pub big_trades: Vec<SizedTrade>,
}

impl TradeStore {
    /// No store keeps more than it may.
    pub open spec fn wf(&self) -> bool {
        self.raw_trades@.len() <= MAX_RETAINED_TRADES && self.big_trades@.len()
            <= MAX_RETAINED_BIG_TRADES
    }

    /// The raw trades as they come with a chart; they are trimmed with the first new ones.
    pub fn new(raw_trades: Vec<Trade>) -> (s: TradeStore)
        ensures
            s.raw_trades@ == raw_trades@,
            s.big_trades@.len() == 0,
    {
        TradeStore { raw_trades, big_trades: Vec::new() }
    }

    /// Forgets all trades.
    pub fn clear(&mut self)
        ensures
            final(self).raw_trades@.len() == 0,
            final(self).big_trades@.len() == 0,
            final(self).wf(),
    {
        self.raw_trades = Vec::new();
        self.big_trades = Vec::new();
    }

    fn extend_raw(&mut self, buffer: &Vec<SizedTrade>)
        ensures
            final(self).big_trades@ == old(self).big_trades@,
            final(self).raw_trades@ == old(self).raw_trades@ + buffer@.map_values(
                |t: SizedTrade| t.trade,
            ),
    {
        let mut i: usize = 0;
        let ghost trades = buffer@.map_values(|t: SizedTrade| t.trade);
        assert(trades.take(0) =~= Seq::<Trade>::empty());
        assert(old(self).raw_trades@ + trades.take(0) =~= old(self).raw_trades@);
        while i < buffer.len()
            invariant
                i <= buffer@.len(),
                trades == buffer@.map_values(|t: SizedTrade| t.trade),
                self.big_trades@ == old(self).big_trades@,
                self.raw_trades@ == old(self).raw_trades@ + trades.take(i as int),
            decreases buffer@.len() - i,
        {
            self.raw_trades.push(buffer[i].trade);
            proof {
                assert(trades.take(i + 1) =~= trades.take(i as int).push(trades[i as int]));
                assert(self.raw_trades@ =~= old(self).raw_trades@ + trades.take(i + 1));
            }
            i += 1;
        }
        assert(trades.take(buffer@.len() as int) =~= trades);
    }

    fn extend_big(&mut self, buffer: &Vec<SizedTrade>)
        ensures
            final(self).raw_trades@ == old(self).raw_trades@,
            final(self).big_trades@ == old(self).big_trades@ + buffer@.filter(
                |t: SizedTrade| is_big(t),
            ),
    {
        let mut i: usize = 0;
        let ghost p = |t: SizedTrade| is_big(t);
        proof {
            math::lemma_filter_ends(buffer@, p);
        }
        assert(old(self).big_trades@ + buffer@.take(0).filter(p) =~= old(self).big_trades@);
        while i < buffer.len()
            invariant
                i <= buffer@.len(),
                p == |t: SizedTrade| is_big(t),
                self.raw_trades@ == old(self).raw_trades@,
                self.big_trades@ == old(self).big_trades@ + buffer@.take(i as int).filter(p),
            decreases buffer@.len() - i,
        {
            let t: SizedTrade = buffer[i];
            proof {
                math::lemma_filter_step(buffer@, i as int, p);
            }
            if t.notional.ge(F64Bits { bits: BIG_TRADE_STORAGE_FLOOR }) {
                self.big_trades.push(t);
                assert(self.big_trades@ =~= old(self).big_trades@ + buffer@.take(i + 1).filter(p));
            }
            i += 1;
        }
        proof {
            math::lemma_filter_ends(buffer@, p);
        }
    }

    /// Takes in new trades, of which the large ones are kept for longer.
    pub fn insert(&mut self, buffer: &Vec<SizedTrade>)
        ensures
            final(self).wf(),
            final(self).raw_trades@ == last_items(
                old(self).raw_trades@ + buffer@.map_values(|t: SizedTrade| t.trade),
                MAX_RETAINED_TRADES as int,
            ),
            final(self).big_trades@ == last_items(
                old(self).big_trades@ + buffer@.filter(|t: SizedTrade| is_big(t)),
                MAX_RETAINED_BIG_TRADES as int,
            ),
    {
        self.extend_raw(buffer);
        keep_last(&mut self.raw_trades, MAX_RETAINED_TRADES);
        self.extend_big(buffer);
        keep_last(&mut self.big_trades, MAX_RETAINED_BIG_TRADES);
    }
}

/// The latest trade is always kept, whatever came before it.
pub proof fn latest_trade_is_kept(before: Seq<Trade>, buffer: Seq<Trade>)
    requires
        buffer.len() > 0,
    ensures
        last_items(before + buffer, MAX_RETAINED_TRADES as int).len() > 0,
        last_items(before + buffer, MAX_RETAINED_TRADES as int).last() == buffer.last(),
{
}

/// A trade is visible.
pub open spec fn in_range(t: SizedTrade, earliest: u64, latest: u64) -> bool {
    earliest <= t.trade.time <= latest
}

/// The largest size of the first `n` trades that are visible, at least zero.
pub open spec fn max_qty(trades: Seq<SizedTrade>, earliest: u64, latest: u64, n: int) -> int
    decreases n,
{
    if n <= 0 {
        0
    } else {
        let before = max_qty(trades, earliest, latest, n - 1);
        if in_range(trades[n - 1], earliest, latest) {
            math::max_int(before, trades[n - 1].trade.qty.units as int)
        } else {
            before
        }
    }
}

/// Where a time lies in the bar that it belongs to: the start of the bar, and `part` of `span`
/// into it; a span of zero stands for the middle.
#[derive(Debug, Clone, Copy, PartialEq, Eq, Structural)]
pub struct BarSpot {
    pub start: u64,
    pub part: u64,
    pub span: u64,
}

/// Where a time lies in the bar that it belongs to.
pub open spec fn spec_spot(basis: Basis, t: u64) -> BarSpot {
    match basis {
        Basis::Time(ms) => if ms == 0 {
            BarSpot { start: t, part: 0, span: 0 }
        } else {
            BarSpot { start: (t / ms * ms) as u64, part: t % ms, span: ms }
        },
        Basis::Tick(_) => BarSpot { start: t, part: 0, span: 0 },
    }
}

/// Where a time lies in the bar that it belongs to.
pub fn bar_spot(basis: Basis, t: u64) -> (s: BarSpot)
    ensures
        s == spec_spot(basis, t),
        s.start <= t,
{
    match basis {
        Basis::Time(ms) => if ms == 0 {
            BarSpot { start: t, part: 0, span: 0 }
        } else {
            proof {
                assert(0 <= t as int / ms as int * ms as int <= t as int) by (nonlinear_arith)
                    requires
                        t >= 0,
                        ms > 0,
                ;
            }
            BarSpot { start: t / ms * ms, part: t % ms, span: ms }
        },
        Basis::Tick(_) => BarSpot { start: t, part: 0, span: 0 },
    }
}

/// A trade that is drawn as a bubble.
#[derive(Debug, Clone, Copy, PartialEq, Eq, Structural)]
pub struct Bubble {
    pub trade: Trade,
    pub spot: BarSpot,
}

/// The bubbles that are drawn, and the size that the largest of them stands for.
pub struct Bubbles {
    pub max_qty: i64,
    pub bubbles: Vec<Bubble>,
}

/// A trade is drawn as a bubble: it is visible, and larger than the filter.
pub open spec fn is_shown(t: SizedTrade, filter: F64Bits, earliest: u64, latest: u64) -> bool {
    in_range(t, earliest, latest) && !t.notional.spec_le(filter)
}

/// The bubble of a trade.
pub open spec fn to_bubble(t: SizedTrade, basis: Basis) -> Bubble {
    Bubble { trade: t.trade, spot: spec_spot(basis, t.trade.time) }
}

/// The bubbles of the trades that are visible and larger than the filter; none where bubbles are
/// switched off or nothing of a size is visible.
pub fn trade_bubbles(
    trades: &Vec<SizedTrade>,
    show: bool,
    filter: F64Bits,
    basis: Basis,
    earliest: u64,
    latest: u64,
) -> (r: Option<Bubbles>)
    ensures
        match r {
            None => !show || max_qty(trades@, earliest, latest, trades@.len() as int) == 0,
            Some(b) => {
                &&& show
                &&& b.max_qty > 0
                &&& b.max_qty == max_qty(trades@, earliest, latest, trades@.len() as int)
                &&& b.bubbles@ == trades@.filter(
                    |t: SizedTrade| is_shown(t, filter, earliest, latest),
                ).map_values(|t: SizedTrade| to_bubble(t, basis))
            },
        },
{
    if !show {
        return None;
    }
    let n: usize = trades.len();
    let mut max: i64 = 0;
    let mut i: usize = 0;
    while i < n
        invariant
            i <= n,
            n == trades@.len(),
            max == max_qty(trades@, earliest, latest, i as int),
            max >= 0,
        decreases n - i,
    {
        let t: SizedTrade = trades[i];
        if t.trade.time >= earliest && t.trade.time <= latest && t.trade.qty.units > max {
            max = t.trade.qty.units;
        }
        i += 1;
    }
    if max <= 0 {
        return None;
    }
    let ghost p = |t: SizedTrade| is_shown(t, filter, earliest, latest);
    let ghost f = |t: SizedTrade| to_bubble(t, basis);
    let mut bubbles: Vec<Bubble> = Vec::new();
    let mut j: usize = 0;
    proof {
        math::lemma_filter_ends(trades@, p);
        assert(trades@.take(0).filter(p).map_values(f) =~= bubbles@);
    }
    while j < n
        invariant
            j <= n,
            n == trades@.len(),
            p == |t: SizedTrade| is_shown(t, filter, earliest, latest),
            f == |t: SizedTrade| to_bubble(t, basis),
            bubbles@ == trades@.take(j as int).filter(p).map_values(f),
        decreases n - j,
    {
        let t: SizedTrade = trades[j];
        proof {
            math::lemma_filter_step(trades@, j as int, p);
        }
        if t.trade.time >= earliest && t.trade.time <= latest && !t.notional.le(filter) {
            bubbles.push(Bubble { trade: t.trade, spot: bar_spot(basis, t.trade.time) });
            assert(bubbles@ =~= trades@.take(j + 1).filter(p).map_values(f));
        }
        j += 1;
    }
    proof {
        math::lemma_filter_ends(trades@, p);
    }
    Some(Bubbles { max_qty: max, bubbles })
}

/// A trade may be the largest of its side.
pub open spec fn is_candidate(t: SizedTrade, is_sell: bool, earliest: u64, latest: u64) -> bool {
    in_range(t, earliest, latest) && t.trade.is_sell == is_sell
}

/// `r` is the place of the largest trade of a side that is visible; of several, the last one.
pub open spec fn is_biggest(
    trades: Seq<SizedTrade>,
    is_sell: bool,
    earliest: u64,
    latest: u64,
    r: Option<int>,
) -> bool {
    match r {
        None => forall|j: int|
            0 <= j < trades.len() ==> !is_candidate(
                #[trigger] trades[j],
                is_sell,
                earliest,
                latest,
            ),
        Some(i) => {
            &&& 0 <= i < trades.len()
            &&& is_candidate(trades[i], is_sell, earliest, latest)
            &&& forall|j: int|
                0 <= j < trades.len() && is_candidate(
                    #[trigger] trades[j],
                    is_sell,
                    earliest,
                    latest,
                ) ==> trades[j].notional.total_rank() <= trades[i].notional.total_rank() && (j > i
                    ==> trades[j].notional.total_rank() < trades[i].notional.total_rank())
        },
    }
}

/// The place of the largest trade of a side that is visible.
pub fn biggest_trade(
    trades: &Vec<SizedTrade>,
    is_sell: bool,
    earliest: u64,
    latest: u64,
) -> (r: Option<usize>)
    ensures
        is_biggest(
            trades@,
            is_sell,
            earliest,
            latest,
            match r {
                Some(i) => Some(i as int),
                None => None,
            },
        ),
{
    let mut r: Option<usize> = None;
    let n: usize = trades.len();
    let mut i: usize = 0;
    while i < n
        invariant
            i <= n,
            n == trades@.len(),
            match r {
                None => forall|j: int|
                    0 <= j < i ==> !is_candidate(
                        #[trigger] trades@[j],
                        is_sell,
                        earliest,
                        latest,
                    ),
                Some(b) => {
                    &&& b < i
                    &&& is_candidate(trades@[b as int], is_sell, earliest, latest)
                    &&& forall|j: int|
                        0 <= j < i && is_candidate(
                            #[trigger] trades@[j],
                            is_sell,
                            earliest,
                            latest,
                        ) ==> trades@[j].notional.total_rank()
                            <= trades@[b as int].notional.total_rank() && (j > b
                            ==> trades@[j].notional.total_rank()
                            < trades@[b as int].notional.total_rank())
                },
            },
        decreases n - i,
    {
        let t: SizedTrade = trades[i];
        if t.trade.time >= earliest && t.trade.time <= latest && t.trade.is_sell == is_sell {
            let better: bool = match r {
                None => true,
                Some(b) => trades[b].notional.total_key() <= t.notional.total_key(),
            };
            if better {
                r = Some(i);
            }
        }
        i += 1;
    }
    r
}

/// A level of the book and its value in the quote currency.
#[derive(Debug, Clone, Copy, PartialEq, Eq, Structural)]
pub struct BookLevel {
    pub price: Price,
    pub qty: Qty,
    pub notional: F64Bits,
}

/// Level `i` comes before level `j`: it is worth more, or as much and stands first.
pub open spec fn precedes(levels: Seq<BookLevel>, i: int, j: int) -> bool {
    let a = levels[i].notional.total_rank();
    let b = levels[j].notional.total_rank();
    a > b || (a == b && i < j)
}

/// Level `i` is worth at least the threshold.
pub open spec fn qualifies(levels: Seq<BookLevel>, threshold: F64Bits, i: int) -> bool {
    0 <= i < levels.len() && levels[i].notional.spec_ge(threshold)
}

/// `r` are the levels that are marked: those of most value that are worth at least the threshold,
/// from the first to the last.
pub open spec fn are_top_levels(
    levels: Seq<BookLevel>,
    threshold: F64Bits,
    r: Seq<usize>,
) -> bool {
    &&& r.len() <= MAX_BOOK_LEVELS
    &&& forall|a: int| 0 <= a < r.len() ==> qualifies(levels, threshold, #[trigger] r[a] as int)
    &&& forall|a: int, b: int|
        0 <= a < b < r.len() ==> precedes(levels, #[trigger] r[a] as int, #[trigger] r[b] as int)
    &&& r.len() < MAX_BOOK_LEVELS ==> forall|i: usize| #[trigger]
        qualifies(levels, threshold, i as int) ==> r.contains(i)
    &&& forall|i: usize, a: int|
        #![trigger qualifies(levels, threshold, i as int), r[a]]
        qualifies(levels, threshold, i as int) && !r.contains(i) && 0 <= a < r.len() ==> precedes(
            levels,
            r[a] as int,
            i as int,
        )
}

/// Level `i` comes after the level `after`, if there is one.
pub open spec fn comes_after(levels: Seq<BookLevel>, after: Option<usize>, i: int) -> bool {
    match after {
        None => true,
        Some(a) => precedes(levels, a as int, i),
    }
}

fn next_level(levels: &Vec<BookLevel>, threshold: F64Bits, after: Option<usize>) -> (r: Option<
    usize,
>)
    requires
        after matches Some(a) ==> a < levels@.len(),
    ensures
        match r {
            None => forall|j: usize| #[trigger]
                qualifies(levels@, threshold, j as int) ==> !comes_after(levels@, after, j as int),
            Some(i) => {
                &&& qualifies(levels@, threshold, i as int)
                &&& comes_after(levels@, after, i as int)
                &&& forall|j: usize| #[trigger]
                    qualifies(levels@, threshold, j as int) && comes_after(
                        levels@,
                        after,
                        j as int,
                    ) && j != i ==> precedes(levels@, i as int, j as int)
            },
        },
{
    let mut r: Option<usize> = None;
    let n: usize = levels.len();
    let mut i: usize = 0;
    while i < n
        invariant
            i <= n,
            n == levels@.len(),
            after matches Some(a) ==> a < n,
            match r {
                None => forall|j: usize| #[trigger]
                    qualifies(levels@, threshold, j as int) && j < i ==> !comes_after(
                        levels@,
                        after,
                        j as int,
                    ),
                Some(b) => {
                    &&& b < i
                    &&& qualifies(levels@, threshold, b as int)
                    &&& comes_after(levels@, after, b as int)
                    &&& forall|j: usize| #[trigger]
                        qualifies(levels@, threshold, j as int) && j < i && comes_after(
                            levels@,
                            after,
                            j as int,
                        ) && j != b ==> precedes(levels@, b as int, j as int)
                },
            },
        decreases n - i,
    {
        let level: BookLevel = levels[i];
        let key: i64 = level.notional.total_key();
        let fits: bool = level.notional.ge(threshold) && match after {
            None => true,
            Some(a) => {
                let k: i64 = levels[a].notional.total_key();
                k > key || (k == key && a < i)
            },
        };
        if fits {
            let better: bool = match r {
                None => true,
                Some(b) => levels[b].notional.total_key() < key,
            };
            if better {
                r = Some(i);
            }
        }
        i += 1;
    }
    r
}

/// The levels of one side of the book that are marked: at most three, those of most value.
pub fn top_levels(levels: &Vec<BookLevel>, threshold: F64Bits) -> (r: Vec<usize>)
    ensures
        are_top_levels(levels@, threshold, r@),
{
    let mut r: Vec<usize> = Vec::new();
    let mut last: Option<usize> = None;
    let mut more: bool = true;
    while more && r.len() < MAX_BOOK_LEVELS
        invariant
            r@.len() <= MAX_BOOK_LEVELS,
            last matches Some(l) ==> l < levels@.len(),
            match last {
                None => r@.len() == 0,
                Some(l) => r@.len() > 0 && r@.last() == l,
            },
            forall|a: int|
                0 <= a < r@.len() ==> qualifies(levels@, threshold, #[trigger] r@[a] as int),
            forall|a: int, b: int|
                0 <= a < b < r@.len() ==> precedes(
                    levels@,
                    #[trigger] r@[a] as int,
                    #[trigger] r@[b] as int,
                ),
            forall|i: usize| #[trigger]
                qualifies(levels@, threshold, i as int) && !r@.contains(i) ==> comes_after(
                    levels@,
                    last,
                    i as int,
                ),
            !more ==> forall|i: usize| #[trigger]
                qualifies(levels@, threshold, i as int) ==> r@.contains(i),
        decreases
                MAX_BOOK_LEVELS - r@.len() + if more {
                    1int
                } else {
                    0
                },
    {
        match next_level(levels, threshold, last) {
            None => {
                more = false;
                proof {
                    assert forall|i: usize| #[trigger]
                        qualifies(levels@, threshold, i as int) implies r@.contains(i) by {
                        if !r@.contains(i) {
                            assert(comes_after(levels@, last, i as int));
                        }
                    }
                }
            },
            Some(i) => {
                let ghost before = r@;
                let ghost last_before = last;
                r.push(i);
                last = Some(i);
                proof {
                    assert forall|j: usize| r@.contains(j) <==> (before.contains(j) || j == i) by {
                        if before.contains(j) {
                            let a = before.index_of(j);
                            assert(r@[a] == j);
                        }
                        if j == i {
                            assert(r@[before.len() as int] == j);
                        }
                        if r@.contains(j) {
                            let a = r@.index_of(j);
                            if a < before.len() {
                                assert(before[a] == j);
                            }
                        }
                    }
                    assert forall|j: usize| #[trigger]
                        qualifies(levels@, threshold, j as int) && !r@.contains(
                            j,
                        ) implies comes_after(levels@, last, j as int) by {
                        assert(!before.contains(j));
                        assert(comes_after(levels@, last_before, j as int));
                        assert(j != i);
                    }
                    assert forall|a: int, b: int| 0 <= a < b < r@.len() implies precedes(
                        levels@,
                        #[trigger] r@[a] as int,
                        #[trigger] r@[b] as int,
                    ) by {
                        if b == before.len() {
                            let l = last_before->0;
                            if a < before.len() - 1 {
                                assert(precedes(
                                    levels@,
                                    before[a] as int,
                                    before[before.len() - 1] as int,
                                ));
                            }
                            assert(precedes(levels@, l as int, i as int));
                        }
                    }
                }
            },
        }
    }
    proof {
        assert forall|i: usize, a: int|
            #![trigger qualifies(levels@, threshold, i as int), r@[a]]
            qualifies(levels@, threshold, i as int) && !r@.contains(i) && 0 <= a
                < r@.len() implies precedes(levels@, r@[a] as int, i as int) by {
            assert(comes_after(levels@, last, i as int));
            if a < r@.len() - 1 {
                assert(precedes(levels@, r@[a] as int, r@[r@.len() - 1] as int));
            }
        }
    }
    r
}

} // verus!
