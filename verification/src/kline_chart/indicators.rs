//! Which indicators a kline chart shows.
use crate::math;
use vstd::prelude::*;

verus! {

/// The indicators that a kline chart can show.
#[derive(Debug, Clone, Copy, PartialEq, Eq, Structural)]
pub enum KlineIndicator {
    Volume,
    BarAnalysis,
    CumulativeDelta,
    OpenInterest,
}

/// The indicators that are switched on.
#[derive(Debug, Clone, Copy, PartialEq, Eq, Structural)]
pub struct IndicatorSet {
    pub volume: bool,
    pub bar_analysis: bool,
    pub cumulative_delta: bool,
    pub open_interest: bool,
}

fn as_one(b: bool) -> (n: usize)
    ensures
        n == (if b {
            1int
        } else {
            0
        }),
{
    if b {
        1
    } else {
        0
    }
}

impl IndicatorSet {
    /// None of them.
    pub fn none() -> (s: IndicatorSet)
        ensures
            forall|i: KlineIndicator| !(#[trigger] s.has(i)),
    {
        IndicatorSet {
            volume: false,
            bar_analysis: false,
            cumulative_delta: false,
            open_interest: false,
        }
    }

    /// Those of a chart that is opened with `choices`: the ones that the chart allows.
    pub fn enabled(choices: &Vec<IndicatorChoice>) -> (s: IndicatorSet)
        ensures
            forall|i: KlineIndicator| #[trigger]
                s.has(i) <==> exists|k: int|
                    0 <= k < choices@.len() && (#[trigger] choices@[k]).chart_allows
                        && choices@[k].indicator == i,
    {
        let mut s: IndicatorSet = IndicatorSet::none();
        let mut k: usize = 0;
        while k < choices.len()
            invariant
                k <= choices@.len(),
                forall|i: KlineIndicator| #[trigger]
                    s.has(i) <==> exists|m: int|
                        0 <= m < k && (#[trigger] choices@[m]).chart_allows
                            && choices@[m].indicator == i,
            decreases choices@.len() - k,
        {
            let ghost before = s;
            let c: IndicatorChoice = choices[k];
            if c.chart_allows {
                match c.indicator {
                    KlineIndicator::Volume => {
                        s.volume = true;
                    },
                    KlineIndicator::BarAnalysis => {
                        s.bar_analysis = true;
                    },
                    KlineIndicator::CumulativeDelta => {
                        s.cumulative_delta = true;
                    },
                    KlineIndicator::OpenInterest => {
                        s.open_interest = true;
                    },
                }
            }
            assert forall|i: KlineIndicator| #[trigger]
                s.has(i) <==> exists|m: int|
                    0 <= m < k + 1 && (#[trigger] choices@[m]).chart_allows
                        && choices@[m].indicator == i by {
                assert(s.has(i) == (before.has(i) || c.chart_allows && c.indicator == i));
                assert(choices@[k as int] == c);
            }
            k += 1;
        }
        s
    }

    /// An indicator is on.
    pub open spec fn has(self, i: KlineIndicator) -> bool {
        match i {
            KlineIndicator::Volume => self.volume,
            KlineIndicator::BarAnalysis => self.bar_analysis,
            KlineIndicator::CumulativeDelta => self.cumulative_delta,
            KlineIndicator::OpenInterest => self.open_interest,
        }
    }

    /// How many are on.
    pub open spec fn spec_count(self) -> int {
        (if self.volume {
            1int
        } else {
            0
        }) + (if self.bar_analysis {
            1int
        } else {
            0
        }) + (if self.cumulative_delta {
            1int
        } else {
            0
        }) + (if self.open_interest {
            1int
        } else {
            0
        })
    }

    /// Whether an indicator is on.
    pub fn contains(&self, i: KlineIndicator) -> (r: bool)
        ensures
            r == self.has(i),
    {
        match i {
            KlineIndicator::Volume => self.volume,
            KlineIndicator::BarAnalysis => self.bar_analysis,
            KlineIndicator::CumulativeDelta => self.cumulative_delta,
            KlineIndicator::OpenInterest => self.open_interest,
        }
    }

    /// How many are on.
    pub fn count(&self) -> (n: usize)
        ensures
            n == self.spec_count(),
    {
        as_one(self.volume) + as_one(self.bar_analysis) + as_one(self.cumulative_delta) + as_one(
            self.open_interest,
        )
    }

    /// Switches an indicator over, where the chart allows it. Returns how many were on before and
    /// how many are on now, by which the panes are split anew.
    pub fn toggle(&mut self, i: KlineIndicator, allowed: bool) -> (r: Option<(usize, usize)>)
        ensures
            !allowed ==> r is None && *final(self) == *old(self),
            allowed ==> {
                &&& r == Some(
                    (old(self).spec_count() as usize, final(self).spec_count() as usize),
                )
                &&& forall|j: KlineIndicator| #[trigger]
                    final(self).has(j) == (if j == i {
                        !old(self).has(j)
                    } else {
                        old(self).has(j)
                    })
                &&& math::abs(final(self).spec_count() - old(self).spec_count()) == 1
            },
    {
        if !allowed {
            return None;
        }
        let before: usize = self.count();
        match i {
            KlineIndicator::Volume => {
                self.volume = !self.volume;
            },
            KlineIndicator::BarAnalysis => {
                self.bar_analysis = !self.bar_analysis;
            },
            KlineIndicator::CumulativeDelta => {
                self.cumulative_delta = !self.cumulative_delta;
            },
            KlineIndicator::OpenInterest => {
                self.open_interest = !self.open_interest;
            },
        }
        Some((before, self.count()))
    }
}

/// Switching an indicator over twice leaves everything as it was.
pub proof fn toggling_twice_changes_nothing(a: IndicatorSet, b: IndicatorSet, c: IndicatorSet, i: KlineIndicator)
    requires
        forall|j: KlineIndicator| #[trigger]
            b.has(j) == (if j == i {
                !a.has(j)
            } else {
                a.has(j)
            }),
        forall|j: KlineIndicator| #[trigger]
            c.has(j) == (if j == i {
                !b.has(j)
            } else {
                b.has(j)
            }),
    ensures
        c == a,
{
    assert(c.has(KlineIndicator::Volume) == a.has(KlineIndicator::Volume)) by {
        assert(b.has(KlineIndicator::Volume) || !b.has(KlineIndicator::Volume));
    }
    assert(c.has(KlineIndicator::BarAnalysis) == a.has(KlineIndicator::BarAnalysis)) by {
        assert(b.has(KlineIndicator::BarAnalysis) || !b.has(KlineIndicator::BarAnalysis));
    }
    assert(c.has(KlineIndicator::CumulativeDelta) == a.has(KlineIndicator::CumulativeDelta)) by {
        assert(b.has(KlineIndicator::CumulativeDelta) || !b.has(KlineIndicator::CumulativeDelta));
    }
    assert(c.has(KlineIndicator::OpenInterest) == a.has(KlineIndicator::OpenInterest)) by {
        assert(b.has(KlineIndicator::OpenInterest) || !b.has(KlineIndicator::OpenInterest));
    }
}

/// An indicator that may be drawn under a chart: the chart and the market allow it.
#[derive(Debug, Clone, Copy, PartialEq, Eq, Structural)]
pub struct IndicatorChoice {
    pub indicator: KlineIndicator,
    pub chart_allows: bool,
    pub market_has: bool,
}

/// The indicators that are drawn, in order: those that the chart and the market allow and that are
/// on.
pub fn drawn_indicators(choices: &Vec<IndicatorChoice>, on: &IndicatorSet) -> (r: Vec<
    KlineIndicator,
>)
    ensures
        r@ == choices@.filter(
            |c: IndicatorChoice| c.chart_allows && c.market_has && on.has(c.indicator),
        ).map_values(|c: IndicatorChoice| c.indicator),
{
    let ghost p = |c: IndicatorChoice| c.chart_allows && c.market_has && on.has(c.indicator);
    let ghost f = |c: IndicatorChoice| c.indicator;
    let mut r: Vec<KlineIndicator> = Vec::new();
    let mut i: usize = 0;
    proof {
        math::lemma_filter_ends(choices@, p);
        assert(choices@.take(0).filter(p).map_values(f) =~= r@);
    }
    while i < choices.len()
        invariant
            i <= choices@.len(),
            p == |c: IndicatorChoice| c.chart_allows && c.market_has && on.has(c.indicator),
            f == |c: IndicatorChoice| c.indicator,
            r@ == choices@.take(i as int).filter(p).map_values(f),
        decreases choices@.len() - i,
    {
        proof {
            math::lemma_filter_step(choices@, i as int, p);
        }
        let c: IndicatorChoice = choices[i];
        if c.chart_allows && c.market_has && on.contains(c.indicator) {
            r.push(c.indicator);
            assert(r@ =~= choices@.take(i + 1).filter(p).map_values(f));
        }
        i += 1;
    }
    proof {
        math::lemma_filter_ends(choices@, p);
    }
    r
}

} // verus!
