//! Market structure on a candlestick chart: swing pivots with their HH/HL/LH/LL tags, breaks
//! of structure (BOS) and changes of character (CHoCH), fair value gaps, and the
//! premium / equilibrium / discount zones.
use crate::math;
use crate::units::{Kline, Price, Ratio};
use vstd::prelude::*;

verus! {

/// Direction of a structure break or of a gap.
#[derive(Debug, Clone, Copy, PartialEq, Eq, Structural)]
pub enum Direction {
    Bullish,
    Bearish,
}

/// BOS continues the trend, CHoCH reverses it.
#[derive(Debug, Clone, Copy, PartialEq, Eq, Structural)]
pub enum BreakKind {
    Bos,
    Choch,
}

/// One confirmed structure level, ready to draw.
#[derive(Debug, Clone, Copy, PartialEq, Eq, Structural)]
pub struct StructureLevel {
    pub price: Price,
    /// Time of the swing point that was broken.
    pub from_time: u64,
    /// Time of the bar that confirmed the break.
    pub confirmed_time: u64,
    pub direction: Direction,
    pub kind: BreakKind,
    /// 1..=5: the size of the leg against the rolling average, one more on high volume.
    pub rating: u8,
}

/// HH/HL/LH/LL classification of a confirmed swing pivot.
#[derive(Debug, Clone, Copy, PartialEq, Eq, Structural)]
pub enum SwingTagKind {
    HigherHigh,
    LowerHigh,
    HigherLow,
    LowerLow,
}

impl SwingTagKind {
    /// The tag as it is drawn.
    pub open spec fn spec_label(self) -> Seq<char> {
        match self {
            SwingTagKind::HigherHigh => "HH"@,
            SwingTagKind::LowerHigh => "LH"@,
            SwingTagKind::HigherLow => "HL"@,
            SwingTagKind::LowerLow => "LL"@,
        }
    }

    /// The tag as it is drawn.
    pub fn label(self) -> (s: &'static str)
        ensures
            s@ == self.spec_label(),
    {
        match self {
            SwingTagKind::HigherHigh => "HH",
            SwingTagKind::LowerHigh => "LH",
            SwingTagKind::HigherLow => "HL",
            SwingTagKind::LowerLow => "LL",
        }
    }

    /// The pivot is a high.
    pub fn is_high(self) -> (r: bool)
        ensures
            r == (self is HigherHigh || self is LowerHigh),
    {
        match self {
            SwingTagKind::HigherHigh | SwingTagKind::LowerHigh => true,
            _ => false,
        }
    }

    /// The pivot lies above the one before it on its side.
    pub fn is_higher(self) -> (r: bool)
        ensures
            r == (self is HigherHigh || self is HigherLow),
    {
        match self {
            SwingTagKind::HigherHigh | SwingTagKind::HigherLow => true,
            _ => false,
        }
    }
}

#[derive(Debug, Clone, Copy, PartialEq, Eq, Structural)]
pub struct SwingTagEntry {
    pub price: Price,
    pub time: u64,
    pub kind: SwingTagKind,
}

/// One fair value gap box.
#[derive(Debug, Clone, Copy, PartialEq, Eq, Structural)]
pub struct FvgZone {
    pub top: Price,
    pub bottom: Price,
    pub start_time: u64,
    /// When the gap was filled, or `None` while it is open.
    pub end_time: Option<u64>,
    pub direction: Direction,
    pub rating: u8,
}

/// Latest premium / equilibrium / discount levels.
#[derive(Debug, Clone, Copy, PartialEq, Eq, Structural)]
pub struct ZoneLevels {
    pub premium: Price,
    pub equilibrium: Price,
    pub discount: Price,
}

/// A confirmed swing pivot.
#[derive(Debug, Clone, Copy, PartialEq, Eq, Structural)]
pub struct SwingPoint {
    pub price: Price,
    pub time: u64,
}

/// What is drawn of the market structure, rebuilt from the klines of a chart.
#[derive(Debug, Clone)]
pub struct SmcStructureState {
    pub levels: Vec<StructureLevel>,
    pub swing_tags: Vec<SwingTagEntry>,
    pub fvgs: Vec<FvgZone>,
    pub zones: Option<ZoneLevels>,
    pub max_levels: usize,
}

/// Rolling averages of sizes are kept in this many parts of a price unit.
pub const AVG_SCALE: i128 = 1_000_000_000_000_000;

/// How many structure levels a rebuild keeps at least.
pub const MIN_LEVELS: usize = 40;

/// How many open gaps are kept.
pub const MAX_FVGS: usize = 30;

/// How many bars the averages of volume and range look back over.
pub const AVG_BARS: usize = 20;

/// The rolling average after one more size: nine tenths of what it was and one tenth of the
/// size, or the first size itself.
pub open spec fn rolled(avg: Option<int>, size: int) -> int {
    match avg {
        Some(a) => (9 * a + size * AVG_SCALE) / 10,
        None => size * AVG_SCALE,
    }
}

/// 1..=5 by how a size compares to the rolling average: at least 1.6, 1.25, 0.9 or 0.6 times
/// it, or less. Without a positive average a size is compared to itself.
pub open spec fn size_rating(size: int, avg: Option<int>) -> int {
    let basis = if avg is Some && avg->0 > 0 {
        avg->0
    } else {
        size * AVG_SCALE
    };
    let scaled = size * AVG_SCALE;
    if basis <= 0 {
        3
    } else if 100 * scaled >= 160 * basis {
        5
    } else if 100 * scaled >= 125 * basis {
        4
    } else if 100 * scaled >= 90 * basis {
        3
    } else if 100 * scaled >= 60 * basis {
        2
    } else {
        1
    }
}

/// The rolling average is that of sizes below 2^64.
pub open spec fn avg_bounded(avg: Option<int>) -> bool {
    avg matches Some(a) ==> 0 <= a <= 0x1_0000_0000_0000_0000 * AVG_SCALE
}

/// An executable rolling average as the number that it stands for.
pub open spec fn avg_view(avg: Option<i128>) -> Option<int> {
    match avg {
        Some(a) => Some(a as int),
        None => None,
    }
}

fn roll(avg: Option<i128>, size: i128) -> (r: i128)
    requires
        avg_bounded(avg_view(avg)),
        0 <= size <= 0x1_0000_0000_0000_0000,
    ensures
        r == rolled(avg_view(avg), size as int),
        avg_bounded(Some(r as int)),
{
    match avg {
        Some(a) => (9 * a + size * AVG_SCALE) / 10,
        None => size * AVG_SCALE,
    }
}

/// 1..=5 by how `size` compares to the rolling average of the sizes before it.
pub fn fvg_rating(size: i128, rolling_avg: Option<i128>) -> (r: u8)
    requires
        avg_bounded(avg_view(rolling_avg)),
        0 <= size <= 0x1_0000_0000_0000_0000,
    ensures
        r == size_rating(size as int, avg_view(rolling_avg)),
        1 <= r <= 5,
{
    let scaled: i128 = size * AVG_SCALE;
    let basis: i128 = match rolling_avg {
        Some(a) => if a > 0 {
            a
        } else {
            scaled
        },
        None => scaled,
    };
    if basis <= 0 {
        3
    } else if 100 * scaled >= 160 * basis {
        5
    } else if 100 * scaled >= 125 * basis {
        4
    } else if 100 * scaled >= 90 * basis {
        3
    } else if 100 * scaled >= 60 * basis {
        2
    } else {
        1
    }
}

/// No high within `len` bars of bar `i` is above its own.
pub open spec fn pivot_high(k: Seq<Kline>, i: int, len: int) -> bool {
    forall|j: int| i - len <= j <= i + len ==> (#[trigger] k[j]).high.units <= k[i].high.units
}

/// No low within `len` bars of bar `i` is below its own.
pub open spec fn pivot_low(k: Seq<Kline>, i: int, len: int) -> bool {
    forall|j: int| i - len <= j <= i + len ==> (#[trigger] k[j]).low.units >= k[i].low.units
}

/// The volume of the bars `lo..hi`.
pub open spec fn volume_sum(k: Seq<Kline>, lo: int, hi: int) -> int
    decreases hi - lo,
{
    if hi <= lo {
        0
    } else {
        volume_sum(k, lo, hi - 1) + k[hi - 1].volume.spec_total()
    }
}

/// The volume of bar `i` is more than `boost` times the average over the last bars.
pub open spec fn volume_boosted(k: Seq<Kline>, i: int, boost: Ratio) -> bool {
    let n = math::min_int(k.len() as int, AVG_BARS as int);
    let sum = volume_sum(k, k.len() - n, k.len() as int);
    sum > 0 && k[i].volume.spec_total() * n * boost.den > sum * boost.num
}

/// Where the scan for structure stands after some bars.
pub struct Scan {
    pub prev_high: Option<int>,
    pub prev_low: Option<int>,
    pub last_high: Option<SwingPoint>,
    pub last_low: Option<SwingPoint>,
    pub trend: Option<Direction>,
    pub leg_avg: Option<int>,
    pub tags: Seq<SwingTagEntry>,
    pub breaks: Seq<StructureLevel>,
}

impl Scan {
    /// Before the first bar.
    pub open spec fn start() -> Scan {
        Scan {
            prev_high: None,
            prev_low: None,
            last_high: None,
            last_low: None,
            trend: None,
            leg_avg: None,
            tags: Seq::empty(),
            breaks: Seq::empty(),
        }
    }

    /// A pivot high becomes the last swing high, tagged against the pivot high before it.
    pub open spec fn after_high(self, bar: Kline) -> Scan {
        Scan {
            prev_high: Some(bar.high.units as int),
            last_high: Some(SwingPoint { price: bar.high, time: bar.time }),
            tags: match self.prev_high {
                None => self.tags,
                Some(prev) => self.tags.push(
                    SwingTagEntry {
                        price: bar.high,
                        time: bar.time,
                        kind: if bar.high.units > prev {
                            SwingTagKind::HigherHigh
                        } else {
                            SwingTagKind::LowerHigh
                        },
                    },
                ),
            },
            ..self
        }
    }

    /// A pivot low becomes the last swing low, tagged against the pivot low before it.
    pub open spec fn after_low(self, bar: Kline) -> Scan {
        Scan {
            prev_low: Some(bar.low.units as int),
            last_low: Some(SwingPoint { price: bar.low, time: bar.time }),
            tags: match self.prev_low {
                None => self.tags,
                Some(prev) => self.tags.push(
                    SwingTagEntry {
                        price: bar.low,
                        time: bar.time,
                        kind: if bar.low.units > prev {
                            SwingTagKind::HigherLow
                        } else {
                            SwingTagKind::LowerLow
                        },
                    },
                ),
            },
            ..self
        }
    }

    /// The distance between the two last swing points.
    pub open spec fn leg_size(self) -> int {
        math::abs(self.last_high->0.price.units - self.last_low->0.price.units)
    }

    /// The level of a break of the last swing point in `direction`, confirmed by `bar`.
    pub open spec fn break_level(self, bar: Kline, direction: Direction, boosted: bool) -> StructureLevel {
        let point = match direction {
            Direction::Bullish => self.last_high->0,
            Direction::Bearish => self.last_low->0,
        };
        let rating = size_rating(self.leg_size(), self.leg_avg);
        StructureLevel {
            price: point.price,
            from_time: point.time,
            confirmed_time: bar.time,
            direction,
            kind: if self.trend is Some && self.trend->0 != direction {
                BreakKind::Choch
            } else {
                BreakKind::Bos
            },
            rating: (if boosted {
                math::min_int(rating + 1, 5)
            } else {
                rating
            }) as u8,
        }
    }

    /// A break is recorded, sets the trend, and uses up the point that was broken.
    pub open spec fn after_break(self, bar: Kline, direction: Direction, boosted: bool) -> Scan {
        Scan {
            last_high: match direction {
                Direction::Bullish => None,
                Direction::Bearish => self.last_high,
            },
            last_low: match direction {
                Direction::Bullish => self.last_low,
                Direction::Bearish => None,
            },
            trend: Some(direction),
            leg_avg: Some(rolled(self.leg_avg, self.leg_size())),
            breaks: self.breaks.push(self.break_level(bar, direction, boosted)),
            ..self
        }
    }

    /// The break that the close of `bar` makes: above the last swing high or else below the
    /// last swing low, once both are known and later than the point.
    pub open spec fn break_at(self, bar: Kline) -> Option<Direction> {
        if self.last_high is None || self.last_low is None {
            None
        } else if bar.close.units > self.last_high->0.price.units && bar.time
            > self.last_high->0.time {
            Some(Direction::Bullish)
        } else if bar.close.units < self.last_low->0.price.units && bar.time
            > self.last_low->0.time {
            Some(Direction::Bearish)
        } else {
            None
        }
    }

    /// The scan after bar `i`.
    pub open spec fn step(self, k: Seq<Kline>, i: int, len: int, boost: Ratio) -> Scan {
        let s1 = if pivot_high(k, i, len) {
            self.after_high(k[i])
        } else {
            self
        };
        let s2 = if pivot_low(k, i, len) {
            s1.after_low(k[i])
        } else {
            s1
        };
        match s2.break_at(k[i]) {
            Some(direction) => s2.after_break(k[i], direction, volume_boosted(k, i, boost)),
            None => s2,
        }
    }
}

/// The scan over the bars from the first that has `len` bars before it up to bar `i`,
/// exclusive.
pub open spec fn scan(k: Seq<Kline>, len: int, boost: Ratio, i: int) -> Scan
    decreases i - len,
{
    if i <= len {
        Scan::start()
    } else {
        scan(k, len, boost, i - 1).step(k, i - 1, len, boost)
    }
}

/// The last `n` elements of `s`, or all of it.
pub open spec fn last_n<T>(s: Seq<T>, n: int) -> Seq<T> {
    if s.len() <= n {
        s
    } else {
        s.subrange(s.len() - n, s.len() as int)
    }
}

fn is_pivot_high(klines: &[Kline], i: usize, len: usize) -> (r: bool)
    requires
        len <= i,
        i + len < klines@.len(),
    ensures
        r == pivot_high(klines@, i as int, len as int),
{
    let total: usize = klines.len();
    let mut j: usize = i - len;
    let last: usize = i + len;
    while j <= last
        invariant
            i - len <= j <= last + 1,
            last == i + len,
            len <= i,
            last < total,
            total == klines@.len(),
            forall|m: int| i - len <= m < j ==> (#[trigger] klines@[m]).high.units
                <= klines@[i as int].high.units,
        decreases last + 1 - j,
    {
        if klines[j].high.units > klines[i].high.units {
            return false;
        }
        j += 1;
    }
    true
}

fn is_pivot_low(klines: &[Kline], i: usize, len: usize) -> (r: bool)
    requires
        len <= i,
        i + len < klines@.len(),
    ensures
        r == pivot_low(klines@, i as int, len as int),
{
    let total: usize = klines.len();
    let mut j: usize = i - len;
    let last: usize = i + len;
    while j <= last
        invariant
            i - len <= j <= last + 1,
            last == i + len,
            len <= i,
            last < total,
            total == klines@.len(),
            forall|m: int| i - len <= m < j ==> (#[trigger] klines@[m]).low.units
                >= klines@[i as int].low.units,
        decreases last + 1 - j,
    {
        if klines[j].low.units < klines[i].low.units {
            return false;
        }
        j += 1;
    }
    true
}

/// What the volume of a bar is held against.
struct VolumeBasis {
    sum: i128,
    n: i128,
}

impl VolumeBasis {
    spec fn of(self, k: Seq<Kline>) -> bool {
        &&& self.n == math::min_int(k.len() as int, AVG_BARS as int)
        &&& self.sum == volume_sum(k, k.len() - self.n, k.len() as int)
        &&& -(20 * 0x1_0000_0000_0000_0000) <= self.sum <= 20 * 0x1_0000_0000_0000_0000
        &&& 0 <= self.n <= 20
    }

    fn new(klines: &[Kline]) -> (b: VolumeBasis)
        ensures
            b.of(klines@),
    {
        let n: usize = if klines.len() < AVG_BARS {
            klines.len()
        } else {
            AVG_BARS
        };
        let start: usize = klines.len() - n;
        let mut sum: i128 = 0;
        let mut i: usize = start;
        while i < klines.len()
            invariant
                start <= i <= klines@.len(),
                klines@.len() - start <= 20,
                sum == volume_sum(klines@, start as int, i as int),
                -((i - start) * 0x1_0000_0000_0000_0000) <= sum <= (i - start)
                    * 0x1_0000_0000_0000_0000,
            decreases klines@.len() - i,
        {
            sum = sum + klines[i].volume.total();
            i += 1;
        }
        VolumeBasis { sum, n: n as i128 }
    }

    fn boosted(&self, klines: &[Kline], i: usize, boost: Ratio) -> (r: bool)
        requires
            self.of(klines@),
            i < klines@.len(),
        ensures
            r == volume_boosted(klines@, i as int, boost),
    {
        let volume: i128 = klines[i].volume.total();
        proof {
            let v = volume as int;
            let n = self.n as int;
            assert(-(20 * 0x1_0000_0000_0000_0000) <= v * n <= 20 * 0x1_0000_0000_0000_0000)
                by (nonlinear_arith)
                requires
                    -0x1_0000_0000_0000_0000 <= v <= 0x1_0000_0000_0000_0000,
                    0 <= n <= 20,
            ;
            let vn = v * n;
            let d = boost.den as int;
            let u = boost.num as int;
            let s = self.sum as int;
            assert(-(20 * 0x1_0000_0000_0000_0000 * 0x1_0000_0000) <= vn * d <= 20
                * 0x1_0000_0000_0000_0000 * 0x1_0000_0000) by (nonlinear_arith)
                requires
                    -(20 * 0x1_0000_0000_0000_0000) <= vn <= 20 * 0x1_0000_0000_0000_0000,
                    0 <= d <= 0x1_0000_0000,
            ;
            assert(-(20 * 0x1_0000_0000_0000_0000 * 0x1_0000_0000) <= s * u <= 20
                * 0x1_0000_0000_0000_0000 * 0x1_0000_0000) by (nonlinear_arith)
                requires
                    -(20 * 0x1_0000_0000_0000_0000) <= s <= 20 * 0x1_0000_0000_0000_0000,
                    0 <= u <= 0x1_0000_0000,
            ;
        }
        self.sum > 0 && volume * self.n * boost.den as i128 > self.sum * boost.num as i128
    }
}

/// `state` is the structure of `klines`, of which a state that kept `max_levels` levels was
/// rebuilt.
pub open spec fn is_structure(
    klines: Seq<Kline>,
    swing_len: int,
    vol_boost: Ratio,
    max_levels: int,
    state: SmcStructureState,
) -> bool {
    &&& state.max_levels == math::max_int(max_levels, MIN_LEVELS as int)
    &&& if klines.len() < 2 * swing_len + 1 {
        &&& state.levels@ == Seq::<StructureLevel>::empty()
        &&& state.swing_tags@ == Seq::<SwingTagEntry>::empty()
        &&& state.fvgs@ == Seq::<FvgZone>::empty()
        &&& state.zones is None
    } else {
        let s = scan(klines, swing_len, vol_boost, klines.len() - swing_len);
        &&& state.swing_tags@ == s.tags
        &&& state.levels@ == last_n(s.breaks, state.max_levels as int)
        &&& state.fvgs@ == if klines.len() < 21 {
            Seq::<FvgZone>::empty()
        } else {
            open_gaps(klines, (Ratio { num: 1, den: 4 }))
        }
        &&& state.zones == zones_of(klines, 60, 10)
    }
}

impl SmcStructureState {
    /// A state that keeps `max_levels` levels and holds nothing yet.
    pub fn new(max_levels: usize) -> (s: SmcStructureState)
        ensures
            s.max_levels == max_levels,
            s.levels@ == Seq::<StructureLevel>::empty(),
            s.swing_tags@ == Seq::<SwingTagEntry>::empty(),
            s.fvgs@ == Seq::<FvgZone>::empty(),
            s.zones is None,
    {
        SmcStructureState {
            levels: Vec::new(),
            swing_tags: Vec::new(),
            fvgs: Vec::new(),
            zones: None,
            max_levels,
        }
    }

    /// Recomputes everything from an ordered series of klines.
    ///
    /// A pivot has `swing_len` bars on either side. A break is confirmed by a close beyond the
    /// last pivot; `vol_boost` times the average volume raises its rating.
    pub fn rebuild(&mut self, klines: &[Kline], swing_len: usize, vol_boost: Ratio)
        ensures
            is_structure(
                klines@,
                swing_len as int,
                vol_boost,
                old(self).max_levels as int,
                *final(self),
            ),
    {
        let cap: usize = if self.max_levels > MIN_LEVELS {
            self.max_levels
        } else {
            MIN_LEVELS
        };
        *self = SmcStructureState::new(cap);
        let total: usize = klines.len();
        if total == 0 || swing_len > (total - 1) / 2 {
            return ;
        }
        let basis = VolumeBasis::new(klines);
        let mut scanner = Scanner::new();
        assert(scanner.wf(cap as int));
        let end: usize = total - swing_len;
        let mut i: usize = swing_len;
        while i < end
            invariant
                swing_len <= i <= end,
                end + swing_len == total,
                total == klines@.len(),
                basis.of(klines@),
                scanner.wf(cap as int),
                scanner.is(scan(klines@, swing_len as int, vol_boost, i as int), cap as int),
                cap >= 1,
            decreases end - i,
        {
            let high: bool = is_pivot_high(klines, i, swing_len);
            let low: bool = is_pivot_low(klines, i, swing_len);
            let boosted: bool = basis.boosted(klines, i, vol_boost);
            let bar: Kline = klines[i];
            scanner.step(bar, high, low, boosted, cap);
            i += 1;
        }
        self.levels = scanner.levels;
        self.swing_tags = scanner.tags;
        self.rebuild_fvgs(klines, Ratio { num: 1, den: 4 });
        self.rebuild_zones(klines, 60, 10);
    }
}

/// The scan in progress.
struct Scanner {
    prev_high: Option<Price>,
    prev_low: Option<Price>,
    last_high: Option<SwingPoint>,
    last_low: Option<SwingPoint>,
    trend: Option<Direction>,
    leg_avg: Option<i128>,
    tags: Vec<SwingTagEntry>,
    levels: Vec<StructureLevel>,
}

spec fn price_view(p: Option<Price>) -> Option<int> {
    match p {
        Some(p) => Some(p.units as int),
        None => None,
    }
}

impl Scanner {
    spec fn wf(&self, cap: int) -> bool {
        &&& avg_bounded(avg_view(self.leg_avg))
        &&& self.levels@.len() <= cap
    }

    spec fn is(&self, s: Scan, cap: int) -> bool {
        &&& price_view(self.prev_high) == s.prev_high
        &&& price_view(self.prev_low) == s.prev_low
        &&& self.last_high == s.last_high
        &&& self.last_low == s.last_low
        &&& self.trend == s.trend
        &&& avg_view(self.leg_avg) == s.leg_avg
        &&& self.tags@ == s.tags
        &&& self.levels@ == last_n(s.breaks, cap)
    }

    fn new() -> (s: Scanner)
        ensures
            forall|cap: int| cap >= 0 ==> #[trigger] s.wf(cap) && s.is(Scan::start(), cap),
    {
        Scanner {
            prev_high: None,
            prev_low: None,
            last_high: None,
            last_low: None,
            trend: None,
            leg_avg: None,
            tags: Vec::new(),
            levels: Vec::new(),
        }
    }

    fn push_break(&mut self, direction: Direction, bar: Kline, boosted: bool, cap: usize)
        requires
            old(self).wf(cap as int),
            cap >= 1,
            old(self).last_high is Some,
            old(self).last_low is Some,
        ensures
            final(self).wf(cap as int),
            forall|s: Scan| #[trigger]
                old(self).is(s, cap as int) ==> final(self).is(
                    s.after_break(bar, direction, boosted),
                    cap as int,
                ),
    {
        let ghost before = *self;
        let (sh, sl) = match (self.last_high, self.last_low) {
            (Some(sh), Some(sl)) => (sh, sl),
            _ => {
                return ;
            },
        };
        let diff: i128 = sh.price.units as i128 - sl.price.units as i128;
        let leg_size: i128 = if diff >= 0 {
            diff
        } else {
            -diff
        };
        let base: u8 = fvg_rating(leg_size, self.leg_avg);
        let rating: u8 = if boosted && base < 5 {
            base + 1
        } else {
            base
        };
        let avg: i128 = roll(self.leg_avg, leg_size);
        self.leg_avg = Some(avg);
        let reversed: bool = match (self.trend, direction) {
            (Some(Direction::Bearish), Direction::Bullish) => true,
            (Some(Direction::Bullish), Direction::Bearish) => true,
            _ => false,
        };
        let broken: SwingPoint = match direction {
            Direction::Bullish => sh,
            Direction::Bearish => sl,
        };
        let level = StructureLevel {
            price: broken.price,
            from_time: broken.time,
            confirmed_time: bar.time,
            direction,
            kind: if reversed {
                BreakKind::Choch
            } else {
                BreakKind::Bos
            },
            rating,
        };
        self.levels.push(level);
        self.trend = Some(direction);
        if self.levels.len() > cap {
            self.levels.remove(0);
        }
        match direction {
            Direction::Bullish => {
                self.last_high = None;
            },
            Direction::Bearish => {
                self.last_low = None;
            },
        }
        proof {
            assert forall|s: Scan| #[trigger] before.is(s, cap as int) implies self.is(
                s.after_break(bar, direction, boosted),
                cap as int,
            ) by {
                assert(level == s.break_level(bar, direction, boosted));
                assert(self.levels@ =~= last_n(s.breaks.push(level), cap as int));
            }
        }
    }

    fn step(&mut self, bar: Kline, high: bool, low: bool, boosted: bool, cap: usize)
        requires
            old(self).wf(cap as int),
            cap >= 1,
        ensures
            final(self).wf(cap as int),
            forall|s: Scan| #[trigger]
                old(self).is(s, cap as int) ==> final(self).is(
                    stepped(s, bar, high, low, boosted),
                    cap as int,
                ),
    {
        let ghost before = *self;
        if high {
            if let Some(prev) = self.prev_high {
                let kind: SwingTagKind = if bar.high.units > prev.units {
                    SwingTagKind::HigherHigh
                } else {
                    SwingTagKind::LowerHigh
                };
                self.tags.push(SwingTagEntry { price: bar.high, time: bar.time, kind });
            }
            self.prev_high = Some(bar.high);
            self.last_high = Some(SwingPoint { price: bar.high, time: bar.time });
        }
        if low {
            if let Some(prev) = self.prev_low {
                let kind: SwingTagKind = if bar.low.units > prev.units {
                    SwingTagKind::HigherLow
                } else {
                    SwingTagKind::LowerLow
                };
                self.tags.push(SwingTagEntry { price: bar.low, time: bar.time, kind });
            }
            self.prev_low = Some(bar.low);
            self.last_low = Some(SwingPoint { price: bar.low, time: bar.time });
        }
        let ghost tagged = *self;
        proof {
            assert forall|s: Scan| #[trigger] before.is(s, cap as int) implies tagged.is(
                pivoted(s, bar, high, low),
                cap as int,
            ) by {}
        }
        if let (Some(sh), Some(sl)) = (self.last_high, self.last_low) {
            if bar.close.units > sh.price.units && bar.time > sh.time {
                self.push_break(Direction::Bullish, bar, boosted, cap);
            } else if bar.close.units < sl.price.units && bar.time > sl.time {
                self.push_break(Direction::Bearish, bar, boosted, cap);
            }
        }
        proof {
            assert forall|s: Scan| #[trigger] before.is(s, cap as int) implies self.is(
                stepped(s, bar, high, low, boosted),
                cap as int,
            ) by {
                assert(tagged.is(pivoted(s, bar, high, low), cap as int));
            }
        }
    }
}

spec fn pivoted(s: Scan, bar: Kline, high: bool, low: bool) -> Scan {
    let s1 = if high {
        s.after_high(bar)
    } else {
        s
    };
    if low {
        s1.after_low(bar)
    } else {
        s1
    }
}

spec fn stepped(s: Scan, bar: Kline, high: bool, low: bool, boosted: bool) -> Scan {
    let s2 = pivoted(s, bar, high, low);
    match s2.break_at(bar) {
        Some(direction) => s2.after_break(bar, direction, boosted),
        None => s2,
    }
}

/// The ranges of the bars `lo..hi`, added up.
pub open spec fn range_sum(k: Seq<Kline>, lo: int, hi: int) -> int
    decreases hi - lo,
{
    if hi <= lo {
        0
    } else {
        range_sum(k, lo, hi - 1) + (k[hi - 1].high.units - k[hi - 1].low.units)
    }
}

/// A gap of `size` at bar `i` is at least `min_pct` of the average range of the bars before it,
/// and that is more than nothing.
pub open spec fn gap_counts(k: Seq<Kline>, i: int, size: int, min_pct: Ratio) -> bool {
    let start = math::max_int(i - AVG_BARS, 0);
    let sum = range_sum(k, start, i);
    sum * min_pct.num > 0 && size * (i - start) * min_pct.den >= sum * min_pct.num
}

/// The direction of the gap that bar `i` leaves to the bar two before it.
pub open spec fn gap_at(k: Seq<Kline>, i: int, min_pct: Ratio) -> Option<Direction> {
    let up = k[i].low.units - k[i - 2].high.units;
    let down = k[i - 2].low.units - k[i].high.units;
    if up > 0 && gap_counts(k, i, up, min_pct) {
        Some(Direction::Bullish)
    } else if down > 0 && gap_counts(k, i, down, min_pct) {
        Some(Direction::Bearish)
    } else {
        None
    }
}

/// The size of a gap at bar `i`.
pub open spec fn gap_size(k: Seq<Kline>, i: int, direction: Direction) -> int {
    match direction {
        Direction::Bullish => k[i].low.units - k[i - 2].high.units,
        Direction::Bearish => k[i - 2].low.units - k[i].high.units,
    }
}

/// A gap box with the bar that made it.
pub struct Gap {
    pub zone: FvgZone,
    pub bar: int,
}

/// The box of a gap at bar `i`, still open.
pub open spec fn gap_zone(k: Seq<Kline>, i: int, direction: Direction, rating: int) -> FvgZone {
    FvgZone {
        top: match direction {
            Direction::Bullish => k[i].low,
            Direction::Bearish => k[i - 2].low,
        },
        bottom: match direction {
            Direction::Bullish => k[i - 2].high,
            Direction::Bearish => k[i].high,
        },
        start_time: k[i - 2].time,
        end_time: None,
        direction,
        rating: rating as u8,
    }
}

/// The gaps that the bars before `i` have made, in order.
pub open spec fn gaps(k: Seq<Kline>, i: int, min_pct: Ratio) -> Seq<Gap>
    decreases i,
{
    if i <= 2 {
        Seq::empty()
    } else {
        let before = gaps(k, i - 1, min_pct);
        match gap_at(k, i - 1, min_pct) {
            None => before,
            Some(direction) => before.push(
                Gap {
                    zone: gap_zone(
                        k,
                        i - 1,
                        direction,
                        size_rating(
                            gap_size(k, i - 1, direction),
                            gap_avg(k, i - 1, min_pct),
                        ),
                    ),
                    bar: i - 1,
                },
            ),
        }
    }
}

/// The rolling average of the gaps that the bars before `i` have made.
pub open spec fn gap_avg(k: Seq<Kline>, i: int, min_pct: Ratio) -> Option<int>
    decreases i,
{
    if i <= 2 {
        None
    } else {
        match gap_at(k, i - 1, min_pct) {
            None => gap_avg(k, i - 1, min_pct),
            Some(direction) => Some(
                rolled(gap_avg(k, i - 1, min_pct), gap_size(k, i - 1, direction)),
            ),
        }
    }
}

/// Bar `j` trades through the gap, down to its bottom or up to its top.
pub open spec fn fills(k: Seq<Kline>, zone: FvgZone, j: int) -> bool {
    k[j].time > zone.start_time && match zone.direction {
        Direction::Bullish => k[j].low.units <= zone.bottom.units,
        Direction::Bearish => k[j].high.units >= zone.top.units,
    }
}

/// One of the bars from the gap's own up to `i`, exclusive, fills it.
pub open spec fn filled_by(k: Seq<Kline>, gap: Gap, i: int) -> bool {
    exists|j: int| gap.bar <= j < i && #[trigger] fills(k, gap.zone, j)
}

/// The boxes of those of the first `n` gaps that no bar fills, in order.
pub open spec fn unfilled(k: Seq<Kline>, all: Seq<Gap>, n: int) -> Seq<FvgZone>
    decreases n,
{
    if n <= 0 {
        Seq::empty()
    } else {
        let before = unfilled(k, all, n - 1);
        if filled_by(k, all[n - 1], k.len() as int) {
            before
        } else {
            before.push(all[n - 1].zone)
        }
    }
}

/// The last gaps that are still open.
pub open spec fn open_gaps(k: Seq<Kline>, min_pct: Ratio) -> Seq<FvgZone> {
    let all = gaps(k, k.len() as int, min_pct);
    last_n(unfilled(k, all, all.len() as int), MAX_FVGS as int)
}

/// The highest high of the bars `lo..hi`.
pub open spec fn highest(k: Seq<Kline>, lo: int, hi: int) -> int
    decreases hi - lo,
{
    if hi <= lo + 1 {
        k[lo].high.units as int
    } else {
        math::max_int(highest(k, lo, hi - 1), k[hi - 1].high.units as int)
    }
}

/// The lowest low of the bars `lo..hi`.
pub open spec fn lowest(k: Seq<Kline>, lo: int, hi: int) -> int
    decreases hi - lo,
{
    if hi <= lo + 1 {
        k[lo].low.units as int
    } else {
        math::min_int(lowest(k, lo, hi - 1), k[hi - 1].low.units as int)
    }
}

/// Four times the level at `quarters` quarters of the range of the `zone_len` bars that end
/// `offset` bars before the last one; 0 where there are none.
pub open spec fn zone_quarters(k: Seq<Kline>, zone_len: int, offset: int, quarters: int) -> int {
    let end = k.len() - offset;
    let start = math::max_int(end - zone_len, 0);
    if end <= start {
        0
    } else {
        (4 - quarters) * lowest(k, start, end) + quarters * highest(k, start, end)
    }
}

/// `zone_quarters` over the last `n` ends, added up.
pub open spec fn zone_sum(k: Seq<Kline>, zone_len: int, n: int, quarters: int) -> int
    decreases n,
{
    if n <= 0 {
        0
    } else {
        zone_sum(k, zone_len, n - 1, quarters) + zone_quarters(k, zone_len, n - 1, quarters)
    }
}

/// `a / b` to the nearest whole number, halves away from zero.
pub open spec fn round_div(a: int, b: int) -> int {
    if a >= 0 {
        (2 * a + b) / (2 * b)
    } else {
        -((-2 * a + b) / (2 * b))
    }
}

/// The zone levels: 75 %, 50 % and 25 % of the range of `zone_len` bars, averaged over the last
/// `zone_smooth` ends.
pub open spec fn zones_of(k: Seq<Kline>, zone_len: int, zone_smooth: int) -> Option<ZoneLevels> {
    let tail = math::min_int(zone_smooth, k.len() as int);
    if k.len() < zone_len || tail == 0 {
        None
    } else {
        Some(
            ZoneLevels {
                premium: Price {
                    units: round_div(zone_sum(k, zone_len, tail, 3), 4 * tail) as i64,
                },
                equilibrium: Price {
                    units: round_div(zone_sum(k, zone_len, tail, 2), 4 * tail) as i64,
                },
                discount: Price {
                    units: round_div(zone_sum(k, zone_len, tail, 1), 4 * tail) as i64,
                },
            },
        )
    }
}

/// The gap `zone` differs from `open` in nothing but its end.
spec fn same_box(zone: FvgZone, open: FvgZone) -> bool {
    zone == (FvgZone { end_time: zone.end_time, ..open })
}

/// The candidates are the gaps of the bars before `i`, each with an end once it is filled.
spec fn candidates_are(candidates: Seq<FvgZone>, k: Seq<Kline>, all: Seq<Gap>, i: int) -> bool {
    &&& candidates.len() == all.len()
    &&& forall|c: int|
        #![trigger candidates[c]]
        0 <= c < all.len() ==> {
            &&& same_box(candidates[c], all[c].zone)
            &&& all[c].zone.end_time is None
            &&& candidates[c].end_time is Some <==> filled_by(k, all[c], i)
        }
}

/// A gap counts at bar `i`.
fn does_gap_count(klines: &[Kline], i: usize, size: i128, min_pct: Ratio) -> (r: bool)
    requires
        2 <= i < klines@.len(),
        0 < size <= 0x1_0000_0000_0000_0000,
    ensures
        r == gap_counts(klines@, i as int, size as int, min_pct),
{
    let start: usize = if i > AVG_BARS {
        i - AVG_BARS
    } else {
        0
    };
    let mut sum: i128 = 0;
    let mut j: usize = start;
    while j < i
        invariant
            start <= j <= i,
            i - start <= 20,
            i < klines@.len(),
            sum == range_sum(klines@, start as int, j as int),
            -((j - start) * 0x1_0000_0000_0000_0000) <= sum <= (j - start)
                * 0x1_0000_0000_0000_0000,
        decreases i - j,
    {
        sum = sum + (klines[j].high.units as i128 - klines[j].low.units as i128);
        j += 1;
    }
    let n: i128 = (i - start) as i128;
    proof {
        let s = sum as int;
        let u = min_pct.num as int;
        let d = min_pct.den as int;
        let z = size as int;
        let m = n as int;
        assert(-(20 * 0x1_0000_0000_0000_0000 * 0x1_0000_0000) <= s * u <= 20
            * 0x1_0000_0000_0000_0000 * 0x1_0000_0000) by (nonlinear_arith)
            requires
                -(20 * 0x1_0000_0000_0000_0000) <= s <= 20 * 0x1_0000_0000_0000_0000,
                0 <= u <= 0x1_0000_0000,
        ;
        assert(0 <= z * m <= 20 * 0x1_0000_0000_0000_0000) by (nonlinear_arith)
            requires
                0 < z <= 0x1_0000_0000_0000_0000,
                0 <= m <= 20,
        ;
        let zm = z * m;
        assert(0 <= zm * d <= 20 * 0x1_0000_0000_0000_0000 * 0x1_0000_0000) by (nonlinear_arith)
            requires
                0 <= zm <= 20 * 0x1_0000_0000_0000_0000,
                0 <= d <= 0x1_0000_0000,
        ;
    }
    let threshold: i128 = sum * min_pct.num as i128;
    threshold > 0 && size * n * min_pct.den as i128 >= threshold
}

/// The gap that bar `i` makes, with its size.
fn find_gap(klines: &[Kline], i: usize, min_pct: Ratio) -> (r: Option<(Direction, i128)>)
    requires
        2 <= i < klines@.len(),
    ensures
        match r {
            None => gap_at(klines@, i as int, min_pct) is None,
            Some((direction, size)) => gap_at(klines@, i as int, min_pct) == Some(direction)
                && size == gap_size(klines@, i as int, direction) && 0 < size
                <= 0x1_0000_0000_0000_0000,
        },
{
    let up: i128 = klines[i].low.units as i128 - klines[i - 2].high.units as i128;
    if up > 0 && does_gap_count(klines, i, up, min_pct) {
        return Some((Direction::Bullish, up));
    }
    let down: i128 = klines[i - 2].low.units as i128 - klines[i].high.units as i128;
    if down > 0 && does_gap_count(klines, i, down, min_pct) {
        return Some((Direction::Bearish, down));
    }
    None
}

/// Marks the gaps that bar `i` fills.
fn close_filled(candidates: &mut Vec<FvgZone>, klines: &[Kline], i: usize, Ghost(all): Ghost<Seq<Gap>>)
    requires
        i < klines@.len(),
        candidates_are(old(candidates)@, klines@, all, i as int),
        forall|c: int| 0 <= c < all.len() ==> (#[trigger] all[c]).bar <= i,
    ensures
        candidates_are(final(candidates)@, klines@, all, i + 1),
{
    let bar: Kline = klines[i];
    let mut c: usize = 0;
    let ghost before = candidates@;
    while c < candidates.len()
        invariant
            c <= candidates@.len(),
            i < klines@.len(),
            bar == klines@[i as int],
            candidates@.len() == all.len(),
            candidates_are(before, klines@, all, i as int),
            forall|d: int| 0 <= d < all.len() ==> (#[trigger] all[d]).bar <= i,
            forall|d: int| c <= d < all.len() ==> candidates@[d] == before[d],
            forall|d: int|
                #![trigger candidates@[d]]
                0 <= d < c ==> {
                    &&& same_box(candidates@[d], all[d].zone)
                    &&& candidates@[d].end_time is Some <==> filled_by(klines@, all[d], i + 1)
                },
        decreases candidates@.len() - c,
    {
        let zone: FvgZone = candidates[c];
        let ghost gap = all[c as int];
        proof {
            assert(before[c as int] == zone);
            assert(fills(klines@, zone, i as int) == fills(klines@, gap.zone, i as int));
            assert(filled_by(klines@, gap, i + 1) == (filled_by(klines@, gap, i as int) || fills(
                klines@,
                gap.zone,
                i as int,
            ))) by {
                if filled_by(klines@, gap, i as int) {
                    let j = choose|j: int|
                        gap.bar <= j < i && #[trigger] fills(klines@, gap.zone, j);
                    assert(gap.bar <= j < i + 1 && fills(klines@, gap.zone, j));
                }
                if filled_by(klines@, gap, i + 1) {
                    let j = choose|j: int|
                        gap.bar <= j < i + 1 && #[trigger] fills(klines@, gap.zone, j);
                    if j < i {
                        assert(gap.bar <= j < i && fills(klines@, gap.zone, j));
                    }
                }
                assert(gap.bar <= i);
            }
        }
        if zone.end_time.is_none() && bar.time > zone.start_time {
            let filled: bool = match zone.direction {
                Direction::Bullish => bar.low.units <= zone.bottom.units,
                Direction::Bearish => bar.high.units >= zone.top.units,
            };
            if filled {
                candidates.set(c, FvgZone { end_time: Some(bar.time), ..zone });
            }
        }
        c += 1;
    }
    proof {
        assert forall|d: int| 0 <= d < all.len() implies (#[trigger] all[d]).zone.end_time is None by {
            assert(same_box(before[d], all[d].zone));
        }
    }
}

proof fn lemma_gaps_known(k: Seq<Kline>, i: int, min_pct: Ratio)
    ensures
        forall|c: int|
            #![trigger gaps(k, i, min_pct)[c]]
            0 <= c < gaps(k, i, min_pct).len() ==> {
                &&& 2 <= gaps(k, i, min_pct)[c].bar < i
                &&& gaps(k, i, min_pct)[c].zone.end_time is None
            },
    decreases i,
{
    if i > 2 {
        lemma_gaps_known(k, i - 1, min_pct);
        let before = gaps(k, i - 1, min_pct);
        let after = gaps(k, i, min_pct);
        assert forall|c: int| 0 <= c < after.len() implies 2 <= (#[trigger] after[c]).bar < i
            && after[c].zone.end_time is None by {
            if c < before.len() {
                assert(after[c] == before[c]);
            }
        }
    }
}

impl SmcStructureState {
    /// Finds the fair value gaps: three bars of which the last leaves a gap to the first of at
    /// least `min_pct` of the average range of the bars before. Gaps that price has traded
    /// through are dropped. With fewer than 21 klines nothing changes.
    pub fn rebuild_fvgs(&mut self, klines: &[Kline], min_pct: Ratio)
        ensures
            final(self).levels == old(self).levels,
            final(self).swing_tags == old(self).swing_tags,
            final(self).zones == old(self).zones,
            final(self).max_levels == old(self).max_levels,
            klines@.len() < 21 ==> final(self).fvgs == old(self).fvgs,
            klines@.len() >= 21 ==> final(self).fvgs@ == open_gaps(klines@, min_pct),
    {
        if klines.len() < 21 {
            return ;
        }
        let ghost k = klines@;
        let mut avg: Option<i128> = None;
        let mut candidates: Vec<FvgZone> = Vec::new();
        let mut i: usize = 2;
        while i < klines.len()
            invariant
                2 <= i <= klines@.len(),
                k == klines@,
                avg_bounded(avg_view(avg)),
                avg_view(avg) == gap_avg(k, i as int, min_pct),
                candidates_are(candidates@, k, gaps(k, i as int, min_pct), i as int),
            decreases klines@.len() - i,
        {
            let ghost before = gaps(k, i as int, min_pct);
            let ghost after = gaps(k, i + 1, min_pct);
            let ghost kept = candidates@;
            match find_gap(klines, i, min_pct) {
                None => {},
                Some((direction, size)) => {
                    let rating: u8 = fvg_rating(size, avg);
                    avg = Some(roll(avg, size));
                    let zone: FvgZone = FvgZone {
                        top: match direction {
                            Direction::Bullish => klines[i].low,
                            Direction::Bearish => klines[i - 2].low,
                        },
                        bottom: match direction {
                            Direction::Bullish => klines[i - 2].high,
                            Direction::Bearish => klines[i].high,
                        },
                        start_time: klines[i - 2].time,
                        end_time: None,
                        direction,
                        rating,
                    };
                    candidates.push(zone);
                },
            }
            proof {
                lemma_gaps_known(k, i + 1, min_pct);
                assert forall|c: int|
                    #![trigger candidates@[c]]
                    0 <= c < after.len() implies {
                    &&& same_box(candidates@[c], after[c].zone)
                    &&& after[c].zone.end_time is None
                    &&& candidates@[c].end_time is Some <==> filled_by(k, after[c], i as int)
                } by {
                    if c < before.len() {
                        assert(after[c] == before[c]);
                        assert(candidates@[c] == kept[c]);
                    } else {
                        assert(after[c].bar == i);
                        assert(!filled_by(k, after[c], i as int));
                    }
                }
                assert(candidates_are(candidates@, k, after, i as int));
            }
            close_filled(&mut candidates, klines, i, Ghost(after));
            i += 1;
        }
        let ghost all = gaps(k, k.len() as int, min_pct);
        let mut open: Vec<FvgZone> = Vec::new();
        let mut c: usize = 0;
        while c < candidates.len()
            invariant
                c <= candidates@.len(),
                k == klines@,
                candidates_are(candidates@, k, all, k.len() as int),
                open@ == unfilled(k, all, c as int),
            decreases candidates@.len() - c,
        {
            let zone: FvgZone = candidates[c];
            if zone.end_time.is_none() {
                open.push(zone);
            }
            c += 1;
        }
        if open.len() > MAX_FVGS {
            let excess: usize = open.len() - MAX_FVGS;
            let tail: Vec<FvgZone> = open.split_off(excess);
            self.fvgs = tail;
            proof {
                assert(self.fvgs@ =~= open_gaps(k, min_pct));
            }
        } else {
            self.fvgs = open;
        }
    }

    /// Recomputes the premium, equilibrium and discount levels.
    fn rebuild_zones(&mut self, klines: &[Kline], zone_len: usize, zone_smooth: usize)
        requires
            zone_smooth <= 0x1000_0000,
        ensures
            final(self).levels == old(self).levels,
            final(self).swing_tags == old(self).swing_tags,
            final(self).fvgs == old(self).fvgs,
            final(self).max_levels == old(self).max_levels,
            final(self).zones == zones_of(klines@, zone_len as int, zone_smooth as int),
    {
        let n: usize = klines.len();
        let tail: usize = if zone_smooth < n {
            zone_smooth
        } else {
            n
        };
        if n < zone_len || tail == 0 {
            self.zones = None;
            return ;
        }
        let ghost k = klines@;
        let mut low_sum: i128 = 0;
        let mut high_sum: i128 = 0;
        let mut offset: usize = 0;
        while offset < tail
            invariant
                offset <= tail <= n,
                tail <= 0x1000_0000,
                n == klines@.len(),
                k == klines@,
                -(offset * 0x8000_0000_0000_0000) <= low_sum <= offset * 0x8000_0000_0000_0000,
                -(offset * 0x8000_0000_0000_0000) <= high_sum <= offset * 0x8000_0000_0000_0000,
                forall|q: int|
                    #![trigger zone_sum(k, zone_len as int, offset as int, q)]
                    1 <= q <= 3 ==> zone_sum(k, zone_len as int, offset as int, q) == (4 - q)
                        * low_sum + q * high_sum,
                -(offset * 0x8000_0000_0000_0000) <= low_sum,
                i64::MIN * offset <= low_sum <= i64::MAX * offset,
                i64::MIN * offset <= high_sum <= i64::MAX * offset,
            decreases tail - offset,
        {
            let end: usize = n - offset;
            let start: usize = if end > zone_len {
                end - zone_len
            } else {
                0
            };
            let mut lo: i64 = 0;
            let mut hi: i64 = 0;
            if start < end {
                lo = klines[start].low.units;
                hi = klines[start].high.units;
                let mut j: usize = start + 1;
                while j < end
                    invariant
                        start < j <= end <= n,
                        n == klines@.len(),
                        k == klines@,
                        lo == lowest(k, start as int, j as int),
                        hi == highest(k, start as int, j as int),
                    decreases end - j,
                {
                    if klines[j].low.units < lo {
                        lo = klines[j].low.units;
                    }
                    if klines[j].high.units > hi {
                        hi = klines[j].high.units;
                    }
                    j += 1;
                }
            }
            let ghost low_before = low_sum as int;
            let ghost high_before = high_sum as int;
            low_sum = low_sum + lo as i128;
            high_sum = high_sum + hi as i128;
            proof {
                assert forall|q: int| 1 <= q <= 3 implies #[trigger] zone_sum(
                    k,
                    zone_len as int,
                    offset + 1,
                    q,
                ) == (4 - q) * low_sum + q * high_sum by {
                    assert(zone_sum(k, zone_len as int, offset as int, q) == (4 - q) * low_before
                        + q * high_before);
                    assert(zone_quarters(k, zone_len as int, offset as int, q) == (4 - q) * lo + q
                        * hi);
                    assert((4 - q) * low_sum + q * high_sum == (4 - q) * low_before + q
                        * high_before + ((4 - q) * lo + q * hi)) by (nonlinear_arith)
                        requires
                            low_sum == low_before + lo,
                            high_sum == high_before + hi,
                    ;
                }
            }
            offset += 1;
        }
        proof {
            assert(zone_sum(k, zone_len as int, tail as int, 3) == low_sum + 3 * high_sum);
            assert(zone_sum(k, zone_len as int, tail as int, 2) == 2 * low_sum + 2 * high_sum);
            assert(zone_sum(k, zone_len as int, tail as int, 1) == 3 * low_sum + high_sum);
        }
        self.zones = Some(
            ZoneLevels {
                premium: zone_price(low_sum + 3 * high_sum, tail),
                equilibrium: zone_price(2 * low_sum + 2 * high_sum, tail),
                discount: zone_price(3 * low_sum + high_sum, tail),
            },
        );
    }
}

/// The price of `quarters / (4 * tail)` units, to the nearest unit.
fn zone_price(quarters: i128, tail: usize) -> (p: Price)
    requires
        0 < tail <= 0x1000_0000,
        4 * i64::MIN * tail <= quarters <= 4 * i64::MAX * tail,
    ensures
        p.units == round_div(quarters as int, 4 * tail),
        p.units == round_div(quarters as int, 4 * tail) as i64,
{
    let b: i128 = 4 * tail as i128;
    proof {
        lemma_round_div_bounds(quarters as int, tail as int);
    }
    let units: i128 = if quarters >= 0 {
        (2 * quarters + b) / (2 * b)
    } else {
        -((-2 * quarters + b) / (2 * b))
    };
    Price::from_units(units as i64)
}

proof fn lemma_round_div_bounds(a: int, tail: int)
    requires
        tail > 0,
        4 * i64::MIN * tail <= a <= 4 * i64::MAX * tail,
    ensures
        i64::MIN <= round_div(a, 4 * tail) <= i64::MAX,
{
    let b = 4 * tail;
    if a >= 0 {
        assert(2 * a + b < (i64::MAX + 1) * (2 * b)) by (nonlinear_arith)
            requires
                b == 4 * tail,
                tail > 0,
                a <= 4 * i64::MAX * tail,
        ;
        vstd::arithmetic::div_mod::lemma_div_pos_is_pos(2 * a + b, 2 * b);
        assert((2 * a + b) / (2 * b) < i64::MAX + 1) by (nonlinear_arith)
            requires
                2 * a + b < (i64::MAX + 1) * (2 * b),
                b > 0,
                2 * a + b >= 0,
        ;
    } else {
        let c = -2 * a + b;
        assert(c < (-(i64::MIN) + 1) * (2 * b)) by (nonlinear_arith)
            requires
                b == 4 * tail,
                tail > 0,
                a >= 4 * i64::MIN * tail,
                c == -2 * a + b,
        ;
        vstd::arithmetic::div_mod::lemma_div_pos_is_pos(c, 2 * b);
        assert(c / (2 * b) < -(i64::MIN) + 1) by (nonlinear_arith)
            requires
                c < (-(i64::MIN) + 1) * (2 * b),
                b > 0,
                c >= 0,
        ;
    }
}

} // verus!
