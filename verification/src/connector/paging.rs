//! Fetching trades page by page, from the oldest to the newest.
use crate::connector::fetcher::ARROW_LIMIT;
use crate::math;
use vstd::prelude::*;

verus! {

/// A fetch of trades in progress.
#[derive(Debug, Clone, Copy, PartialEq, Eq, Structural)]
pub struct PagedFetch {
    /// Where the next page starts.
    pub cursor: u64,
    pub to_time: u64,
    /// Some trades have been received.
    pub had_data: bool,
}

/// The next page to ask for.
#[derive(Debug, Clone, Copy, PartialEq, Eq, Structural)]
pub struct PageRequest {
    pub from: u64,
    pub to: u64,
    pub limit: usize,
}

/// How a fetch goes on after a page.
#[derive(Debug, Clone, Copy, PartialEq, Eq, Structural)]
pub enum PageOutcome {
    /// Ask for the next page, if there is one.
    Continue,
    /// The source has no more; whether there were any trades.
    Finished(bool),
    /// The page was not empty, but did not get past its start.
    Malformed,
}

impl PageOutcome {
    /// What the user is told of a source that does not move on.
    pub fn malformed_message() -> (s: &'static str)
        ensures
            s@ == "Source may be malformed. Check logs for details."@,
    {
        "Source may be malformed. Check logs for details."
    }
}

/// The instant after `t`, or `t` itself where there is none.
pub open spec fn instant_after(t: u64) -> int {
    math::min_int(t + 1, u64::MAX as int)
}

impl PagedFetch {
    /// A fetch of everything from `from_time` up to `to_time`.
    pub fn new(from_time: u64, to_time: u64) -> (f: PagedFetch)
        ensures
            f == (PagedFetch { cursor: from_time, to_time, had_data: false }),
    {
        PagedFetch { cursor: from_time, to_time, had_data: false }
    }

    /// The next page, or `Err` with whether there were any trades once the end is reached.
    pub fn next_page(&self) -> (r: Result<PageRequest, bool>)
        ensures
            r == (if self.cursor < self.to_time {
                Ok::<PageRequest, bool>(
                    PageRequest { from: self.cursor, to: self.to_time, limit: ARROW_LIMIT },
                )
            } else {
                Err::<PageRequest, bool>(self.had_data)
            }),
    {
        if self.cursor < self.to_time {
            Ok(PageRequest { from: self.cursor, to: self.to_time, limit: ARROW_LIMIT })
        } else {
            Err(self.had_data)
        }
    }

    /// Takes in a page of the server: how many rows it had, how many of them were trades, and
    /// the latest time among the rows. A page without rows is the last one.
    pub fn on_server_page(&mut self, raw_row_count: usize, trades: usize, last_ts: Option<u64>) -> (r:
        PageOutcome)
        ensures
            *final(self) == after_server_page(
                *old(self),
                raw_row_count as int,
                trades as int,
                last_ts,
            ),
            r == (if raw_row_count == 0 {
                PageOutcome::Finished(old(self).had_data)
            } else if final(self).cursor > old(self).cursor {
                PageOutcome::Continue
            } else {
                PageOutcome::Malformed
            }),
    {
        if raw_row_count == 0 {
            return PageOutcome::Finished(self.had_data);
        }
        let prev: u64 = self.cursor;
        self.had_data = self.had_data || trades > 0;
        if let Some(t) = last_ts {
            self.cursor = t.saturating_add(1);
        }
        if self.cursor <= prev {
            PageOutcome::Malformed
        } else {
            PageOutcome::Continue
        }
    }

    /// Takes in a page of the exchange by the time of its last trade. A page without trades is
    /// the last one.
    pub fn on_exchange_page(&mut self, last_trade_time: Option<u64>) -> (r: PageOutcome)
        ensures
            *final(self) == after_exchange_page(*old(self), last_trade_time),
            r == (if last_trade_time is None {
                PageOutcome::Finished(old(self).had_data)
            } else if final(self).cursor > old(self).cursor {
                PageOutcome::Continue
            } else {
                PageOutcome::Malformed
            }),
    {
        let t: u64 = match last_trade_time {
            None => {
                return PageOutcome::Finished(self.had_data);
            },
            Some(t) => t,
        };
        let prev: u64 = self.cursor;
        self.had_data = true;
        self.cursor = t.saturating_add(1);
        if self.cursor <= prev {
            PageOutcome::Malformed
        } else {
            PageOutcome::Continue
        }
    }
}

/// A run of pages that all go on: the fetch before each of them, and after the last one.
pub open spec fn goes_on(states: Seq<PagedFetch>) -> bool {
    forall|i: int|
        #![trigger states[i]]
        0 <= i < states.len() - 1 ==> {
            &&& states[i].cursor < states[i].to_time
            &&& states[i + 1].to_time == states[i].to_time
            &&& states[i + 1].cursor > states[i].cursor
        }
}

/// A fetch cannot go on forever: each page that is not the last moves the cursor on, so there
/// are no more of them than there are milliseconds in the range.
pub proof fn paging_ends(states: Seq<PagedFetch>)
    requires
        states.len() >= 1,
        goes_on(states),
    ensures
        states.len() - 1 <= math::max_int(states[0].to_time - states[0].cursor, 0),
    decreases states.len(),
{
    if states.len() >= 2 {
        let rest = states.skip(1);
        assert forall|i: int|
            #![trigger rest[i]]
            0 <= i < rest.len() - 1 implies {
            &&& rest[i].cursor < rest[i].to_time
            &&& rest[i + 1].to_time == rest[i].to_time
            &&& rest[i + 1].cursor > rest[i].cursor
        } by {
            assert(rest[i] == states[i + 1]);
            assert(rest[i + 1] == states[i + 2]);
        }
        paging_ends(rest);
        assert(rest[0] == states[1]);
        assert(states[0].cursor < states[0].to_time);
    }
}

/// What a page of the server makes of a fetch.
pub open spec fn after_server_page(
    f: PagedFetch,
    raw_row_count: int,
    trades: int,
    last_ts: Option<u64>,
) -> PagedFetch {
    if raw_row_count == 0 {
        f
    } else {
        PagedFetch {
            cursor: match last_ts {
                Some(t) => instant_after(t) as u64,
                None => f.cursor,
            },
            to_time: f.to_time,
            had_data: f.had_data || trades > 0,
        }
    }
}

/// A fetch from the server reports trades exactly when some page of it held a trade, however
/// many pages without trades stood around that one. A page is given by its number of rows, its
/// number of trades and the latest time among its rows.
pub proof fn trades_are_reported(
    from_time: u64,
    to_time: u64,
    states: Seq<PagedFetch>,
    pages: Seq<(int, int, Option<u64>)>,
)
    requires
        states.len() == pages.len() + 1,
        states[0] == (PagedFetch { cursor: from_time, to_time, had_data: false }),
        forall|i: int|
            #![trigger pages[i]]
            0 <= i < pages.len() ==> 0 <= pages[i].1 <= pages[i].0 && states[i + 1]
                == after_server_page(states[i], pages[i].0, pages[i].1, pages[i].2),
    ensures
        states.last().had_data <==> exists|i: int|
            #![trigger pages[i]]
            0 <= i < pages.len() && pages[i].1 > 0,
        states.last().to_time == to_time,
    decreases pages.len(),
{
    if pages.len() > 0 {
        let n = pages.len() - 1;
        let states0 = states.drop_last();
        let pages0 = pages.drop_last();
        assert forall|i: int| #![trigger pages0[i]] 0 <= i < pages0.len() implies 0 <= pages0[i].1
            <= pages0[i].0 && states0[i + 1] == after_server_page(
            states0[i],
            pages0[i].0,
            pages0[i].1,
            pages0[i].2,
        ) by {
            assert(pages0[i] == pages[i]);
        }
        trades_are_reported(from_time, to_time, states0, pages0);
        assert(states[n + 1] == after_server_page(
            states[n],
            pages[n].0,
            pages[n].1,
            pages[n].2,
        ));
        if states0.last().had_data {
            let i = choose|i: int|
                #![trigger pages0[i]]
                0 <= i < pages0.len() && pages0[i].1 > 0;
            assert(pages[i] == pages0[i]);
        }
        if exists|i: int| #![trigger pages[i]] 0 <= i < pages.len() && pages[i].1 > 0 {
            let i = choose|i: int| #![trigger pages[i]] 0 <= i < pages.len() && pages[i].1 > 0;
            if i < n {
                assert(pages0[i] == pages[i]);
            }
        }
    }
}

/// What a page of the exchange makes of a fetch.
pub open spec fn after_exchange_page(f: PagedFetch, last_trade_time: Option<u64>) -> PagedFetch {
    match last_trade_time {
        None => f,
        Some(t) => PagedFetch {
            cursor: instant_after(t) as u64,
            to_time: f.to_time,
            had_data: true,
        },
    }
}

/// A fetch from the exchange reports trades exactly when some page of it held a trade. A page is
/// given by the time of its last trade, if it has one.
pub proof fn exchange_trades_are_reported(
    from_time: u64,
    to_time: u64,
    states: Seq<PagedFetch>,
    pages: Seq<Option<u64>>,
)
    requires
        states.len() == pages.len() + 1,
        states[0] == (PagedFetch { cursor: from_time, to_time, had_data: false }),
        forall|i: int|
            #![trigger pages[i]]
            0 <= i < pages.len() ==> states[i + 1] == after_exchange_page(states[i], pages[i]),
    ensures
        states.last().had_data <==> exists|i: int|
            0 <= i < pages.len() && (#[trigger] pages[i]) is Some,
        states.last().to_time == to_time,
    decreases pages.len(),
{
    if pages.len() > 0 {
        let n = pages.len() - 1;
        let states0 = states.drop_last();
        let pages0 = pages.drop_last();
        assert forall|i: int| #![trigger pages0[i]] 0 <= i < pages0.len() implies states0[i + 1]
            == after_exchange_page(states0[i], pages0[i]) by {
            assert(pages0[i] == pages[i]);
        }
        exchange_trades_are_reported(from_time, to_time, states0, pages0);
        assert(states[n + 1] == after_exchange_page(states[n], pages[n]));
        if states0.last().had_data {
            let i = choose|i: int| 0 <= i < pages0.len() && (#[trigger] pages0[i]) is Some;
            assert(pages[i] == pages0[i]);
        }
        if exists|i: int| 0 <= i < pages.len() && (#[trigger] pages[i]) is Some {
            let i = choose|i: int| 0 <= i < pages.len() && (#[trigger] pages[i]) is Some;
            if i < n {
                assert(pages0[i] == pages[i]);
            }
        }
    }
}

} // verus!
