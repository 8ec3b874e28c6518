//! A table under the bars: what was bought and sold in each of them.
use crate::heatmap::view;
use crate::heatmap::view::round_time_to_bucket;
use crate::ordered;
use crate::ordered::sorted_keys;
use crate::units::Qty;
use std::collections::BTreeMap;
use vstd::prelude::*;

verus! {

/// What was traded in a bar. The share of the delta is held by its bits.
#[derive(Debug, Clone, Copy, PartialEq, Eq, Structural)]
pub struct FootprintSummary {
    pub buy: Qty,
    pub sell: Qty,
    pub total: Qty,
    pub delta: Qty,
    pub delta_pct_bits: u64,
}

/// A bar and what was traded in it, if anything was.
#[derive(Debug, Clone, Copy, PartialEq, Eq, Structural)]
pub struct BarSummary {
    pub key: u64,
    pub summary: Option<FootprintSummary>,
}

/// Which rows the table has.
#[derive(Debug, Clone, Copy, PartialEq, Eq, Structural)]
pub struct BarAnalysisSettings {
    pub show_buy_sell: bool,
    pub show_volume: bool,
    pub show_delta: bool,
    pub show_delta_pct: bool,
}

impl Default for BarAnalysisSettings {
    fn default() -> (s: BarAnalysisSettings)
        ensures
            s.show_buy_sell && s.show_volume && s.show_delta && s.show_delta_pct,
    {
        BarAnalysisSettings {
            show_buy_sell: true,
            show_volume: true,
            show_delta: true,
            show_delta_pct: true,
        }
    }
}

/// A row of the table.
#[derive(Debug, Clone, Copy, PartialEq, Eq, Structural)]
pub enum TableRow {
    Buy,
    Sell,
    Total,
    Delta,
    DeltaPct,
}

/// The colour of a cell.
#[derive(Debug, Clone, Copy, PartialEq, Eq, Structural)]
pub enum CellTone {
    Success,
    Danger,
    Plain,
}

impl TableRow {
    /// What the row is called.
    pub fn label(self) -> (s: &'static str)
        ensures
            s@ == (match self {
                TableRow::Buy => "Buy"@,
                TableRow::Sell => "Sell"@,
                TableRow::Total => "Total"@,
                TableRow::Delta => "\u{394}"@,
                TableRow::DeltaPct => "\u{394}%"@,
            }),
    {
        match self {
            TableRow::Buy => "Buy",
            TableRow::Sell => "Sell",
            TableRow::Total => "Total",
            TableRow::Delta => "\u{394}",
            TableRow::DeltaPct => "\u{394}%",
        }
    }

    /// The colour of the row's cell for a bar: the delta and its share are coloured by the sign
    /// of the delta.
    pub fn tone(self, summary: &FootprintSummary) -> (t: CellTone)
        ensures
            t == (match self {
                TableRow::Buy => CellTone::Success,
                TableRow::Sell => CellTone::Danger,
                TableRow::Total => CellTone::Plain,
                TableRow::Delta | TableRow::DeltaPct => if summary.delta.units >= 0 {
                    CellTone::Success
                } else {
                    CellTone::Danger
                },
            }),
    {
        match self {
            TableRow::Buy => CellTone::Success,
            TableRow::Sell => CellTone::Danger,
            TableRow::Total => CellTone::Plain,
            TableRow::Delta | TableRow::DeltaPct => if summary.delta.units >= 0 {
                CellTone::Success
            } else {
                CellTone::Danger
            },
        }
    }
}

/// The rows of the table, from the top.
pub open spec fn spec_rows(s: BarAnalysisSettings) -> Seq<TableRow> {
    (if s.show_buy_sell {
        seq![TableRow::Buy, TableRow::Sell]
    } else {
        Seq::empty()
    }) + (if s.show_volume {
        seq![TableRow::Total]
    } else {
        Seq::empty()
    }) + (if s.show_delta {
        seq![TableRow::Delta]
    } else {
        Seq::empty()
    }) + (if s.show_delta_pct {
        seq![TableRow::DeltaPct]
    } else {
        Seq::empty()
    })
}

/// The rows of the table, from the top.
pub fn table_rows(s: BarAnalysisSettings) -> (rows: Vec<TableRow>)
    ensures
        rows@ == spec_rows(s),
{
    let mut rows: Vec<TableRow> = Vec::new();
    if s.show_buy_sell {
        rows.push(TableRow::Buy);
        rows.push(TableRow::Sell);
    }
    if s.show_volume {
        rows.push(TableRow::Total);
    }
    if s.show_delta {
        rows.push(TableRow::Delta);
    }
    if s.show_delta_pct {
        rows.push(TableRow::DeltaPct);
    }
    assert(rows@ =~= spec_rows(s));
    rows
}

/// Into how many rows the height of the table is divided: at least one.
pub fn row_count(s: BarAnalysisSettings) -> (n: usize)
    ensures
        n == (if spec_rows(s).len() == 0 {
            1
        } else {
            spec_rows(s).len()
        }),
{
    let rows: Vec<TableRow> = table_rows(s);
    if rows.len() == 0 {
        1
    } else {
        rows.len()
    }
}

/// The summaries after those of `bars` have been put in, or taken out where nothing was traded, in
/// order.
pub open spec fn with_summaries(
    m: Map<u64, FootprintSummary>,
    bars: Seq<BarSummary>,
) -> Map<u64, FootprintSummary>
    decreases bars.len(),
{
    if bars.len() == 0 {
        m
    } else {
        let before = with_summaries(m, bars.drop_last());
        match bars.last().summary {
            Some(s) => before.insert(bars.last().key, s),
            None => before.remove(bars.last().key),
        }
    }
}

/// The summaries of the bars before `len`.
pub open spec fn truncated(m: Map<u64, FootprintSummary>, len: u64) -> Map<u64, FootprintSummary> {
    m.restrict(Set::new(|k: u64| k < len))
}

/// The summaries of the bars.
pub struct BarAnalysisIndicator {
    pub data: BTreeMap<u64, FootprintSummary>,
    pub settings: BarAnalysisSettings,
}

impl BarAnalysisIndicator {
    /// A table without data.
    pub fn new() -> (b: BarAnalysisIndicator)
        ensures
            b.data@ == Map::<u64, FootprintSummary>::empty(),
            b.settings == (BarAnalysisSettings {
                show_buy_sell: true,
                show_volume: true,
                show_delta: true,
                show_delta_pct: true,
            }),
    {
        BarAnalysisIndicator { data: BTreeMap::new(), settings: BarAnalysisSettings::default() }
    }

    /// Takes in bars that have changed: those in which something was traded get a summary, the
    /// others lose theirs.
    pub fn on_insert_klines(&mut self, bars: &Vec<BarSummary>)
        ensures
            final(self).data@ == with_summaries(old(self).data@, bars@),
            final(self).settings == old(self).settings,
    {
        let mut i: usize = 0;
        assert(bars@.take(0) =~= Seq::<BarSummary>::empty());
        while i < bars.len()
            invariant
                i <= bars@.len(),
                self.settings == old(self).settings,
                self.data@ == with_summaries(old(self).data@, bars@.take(i as int)),
            decreases bars@.len() - i,
        {
            proof {
                assert(bars@.take(i + 1).drop_last() =~= bars@.take(i as int));
                assert(bars@.take(i + 1).last() == bars@[i as int]);
            }
            let key: u64 = bars[i].key;
            match bars[i].summary {
                Some(s) => {
                    self.data.insert(key, s);
                },
                None => {
                    self.data.remove(&key);
                },
            }
            i += 1;
        }
        proof {
            assert(bars@.take(bars@.len() as int) =~= bars@);
        }
    }

    /// Starts over with the bars of a chart.
    pub fn rebuild(&mut self, bars: &Vec<BarSummary>)
        ensures
            final(self).data@ == with_summaries(Map::empty(), bars@),
            final(self).settings == old(self).settings,
    {
        self.data = BTreeMap::new();
        self.on_insert_klines(bars);
    }

    /// Takes in trades of a chart by ticks, which now has `len` bars: `bars` are the last bar
    /// that there was and all new ones.
    pub fn on_insert_ticks(&mut self, len: u64, bars: &Vec<BarSummary>)
        ensures
            final(self).data@ == with_summaries(truncated(old(self).data@, len), bars@),
            final(self).settings == old(self).settings,
    {
        let keys: Vec<u64> = sorted_keys(&self.data);
        let mut i: usize = 0;
        while i < keys.len()
            invariant
                i <= keys@.len(),
                ordered::are_keys(old(self).data@, keys@),
                self.settings == old(self).settings,
                forall|k: u64| #[trigger]
                    self.data@.contains_key(k) <==> (old(self).data@.contains_key(k) && (k < len
                        || !keys@.take(i as int).contains(k))),
                forall|k: u64| #[trigger]
                    self.data@.contains_key(k) ==> self.data@[k] == old(self).data@[k],
            decreases keys@.len() - i,
        {
            let k: u64 = keys[i];
            proof {
                assert forall|x: u64| keys@.take(i + 1).contains(x) <==> (keys@.take(
                    i as int,
                ).contains(x) || x == k) by {
                    let p = keys@.take(i as int);
                    let q = keys@.take(i + 1);
                    if p.contains(x) {
                        let j = p.index_of(x);
                        assert(q[j] == x);
                    }
                    if x == k {
                        assert(q[i as int] == x);
                    }
                    if q.contains(x) {
                        let j = q.index_of(x);
                        if j < i {
                            assert(p[j] == x);
                        }
                    }
                }
            }
            if k >= len {
                self.data.remove(&k);
            }
            i += 1;
        }
        proof {
            assert(keys@.take(keys@.len() as int) =~= keys@);
            assert(self.data@ =~= truncated(old(self).data@, len));
        }
        self.on_insert_klines(bars);
    }
}

/// The bar that the last of the old bars is, from which on the bars of a chart by ticks have to
/// be looked at again.
pub fn first_changed(old_len: usize) -> (i: usize)
    ensures
        i == (if old_len == 0 {
            0int
        } else {
            old_len - 1
        }),
{
    old_len.saturating_sub(1)
}

/// The bars that the first `n` of the times fall into, each once, in the order of their first
/// occurrence.
pub open spec fn buckets_of(times: Seq<u64>, interval: u64, n: int) -> Seq<u64>
    decreases n,
{
    if n <= 0 {
        Seq::empty()
    } else {
        let before = buckets_of(times, interval, n - 1);
        let b = view::bucket_start(times[n - 1] as int, interval as int) as u64;
        if before.contains(b) {
            before
        } else {
            before.push(b)
        }
    }
}

fn contains(xs: &Vec<u64>, x: u64) -> (r: bool)
    ensures
        r == xs@.contains(x),
{
    let mut i: usize = 0;
    while i < xs.len()
        invariant
            i <= xs@.len(),
            forall|j: int| 0 <= j < i ==> xs@[j] != x,
        decreases xs@.len() - i,
    {
        if xs[i] == x {
            assert(xs@[i as int] == x);
            return true;
        }
        i += 1;
    }
    false
}

/// The bars that trades fall into, each once, in the order of their first occurrence.
pub fn affected_buckets(times: &Vec<u64>, interval: u64) -> (r: Vec<u64>)
    requires
        interval > 0,
    ensures
        r@ == buckets_of(times@, interval, times@.len() as int),
{
    let mut r: Vec<u64> = Vec::new();
    let mut i: usize = 0;
    while i < times.len()
        invariant
            i <= times@.len(),
            interval > 0,
            r@ == buckets_of(times@, interval, i as int),
        decreases times@.len() - i,
    {
        let b: u64 = round_time_to_bucket(times[i], interval);
        if !contains(&r, b) {
            r.push(b);
        }
        i += 1;
    }
    r
}

/// Every trade falls into one of the bars that are looked at again, and no bar is looked at twice.
pub proof fn every_trade_is_covered(times: Seq<u64>, interval: u64, i: int)
    requires
        interval > 0,
        0 <= i < times.len(),
    ensures
        buckets_of(times, interval, times.len() as int).contains(
            view::bucket_start(times[i] as int, interval as int) as u64,
        ),
        buckets_of(times, interval, times.len() as int).no_duplicates(),
{
    lemma_buckets(times, interval, times.len() as int, i);
}

proof fn lemma_buckets(times: Seq<u64>, interval: u64, n: int, i: int)
    requires
        0 <= n <= times.len(),
        0 <= i,
    ensures
        i < n ==> buckets_of(times, interval, n).contains(
            view::bucket_start(times[i] as int, interval as int) as u64,
        ),
        buckets_of(times, interval, n).no_duplicates(),
    decreases n,
{
    if n > 0 {
        lemma_buckets(times, interval, n - 1, i);
        let before = buckets_of(times, interval, n - 1);
        let b = view::bucket_start(times[n - 1] as int, interval as int) as u64;
        let after = buckets_of(times, interval, n);
        if !before.contains(b) {
            assert(after == before.push(b));
            assert(after[before.len() as int] == b);
            if i < n - 1 {
                let x = view::bucket_start(times[i] as int, interval as int) as u64;
                let j = before.index_of(x);
                assert(after[j] == x);
            }
        }
    }
}

} // verus!
