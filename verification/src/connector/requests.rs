//! The requests that a chart has made: one per range, retried only after a failure and a pause.
use crate::table::{table_get, table_insert, table_keys, table_new, Table};
use vstd::prelude::*;

verus! {

/// What is fetched, from a time to a time, in milliseconds.
#[derive(Debug, Clone, Copy, PartialEq, Eq, Structural)]
pub enum FetchRange {
    Kline(u64, u64),
    OpenInterest(u64, u64),
    Trades(u64, u64),
}

/// Why a request was not made.
#[derive(Debug, Clone, Copy, PartialEq, Eq, Structural)]
pub enum ReqError {
    /// The same range is already being fetched.
    Overlaps,
    /// The source has no data for the range.
    NoData,
    /// An attempt for the range failed, and the pause before a retry is not over.
    Failed,
}

impl ReqError {
    /// What the user is told.
    pub fn message(self) -> (s: &'static str)
        ensures
            s@ == (match self {
                ReqError::Overlaps => "Request overlaps with an existing request"@,
                ReqError::NoData => "Source has no data for the requested range"@,
                ReqError::Failed => "Previous request failed, retry not yet allowed"@,
            }),
    {
        match self {
            ReqError::Overlaps => "Request overlaps with an existing request",
            ReqError::NoData => "Source has no data for the requested range",
            ReqError::Failed => "Previous request failed, retry not yet allowed",
        }
    }
}

/// How a request stands. `Failed` is retried after a pause; `Completed` and `NoData` never.
#[derive(Debug, Clone, Copy, PartialEq, Eq, Structural)]
pub enum RequestStatus {
    Pending,
    Completed,
    NoData,
    /// When the fetch failed.
    Failed(u64),
}

/// One request.
#[derive(Debug, Clone, Copy, PartialEq, Eq, Structural)]
pub struct FetchRequest {
    pub fetch_type: FetchRange,
    pub status: RequestStatus,
}

impl FetchRequest {
    /// A request that is about to be made.
    pub fn new(fetch_type: FetchRange) -> (r: FetchRequest)
        ensures
            r == (FetchRequest { fetch_type, status: RequestStatus::Pending }),
    {
        FetchRequest { fetch_type, status: RequestStatus::Pending }
    }

    /// Whether the request is for the given range.
    pub fn same_with_range(&self, range: &FetchRange) -> (r: bool)
        ensures
            r == (self.fetch_type == *range),
    {
        self.fetch_type == *range
    }
}

/// How long a failed request rests before it may be made again.
pub const RETRY_AFTER_MS: u64 = 30_000;

/// Requests by identifier.
pub type RequestTable = Table<u128, FetchRequest>;

/// `Uuid::new_v4`: some identifier. It is drawn at random, so nothing is claimed of its value.
/// It panics where the system has no random numbers to give.
#[verifier::external_body]
pub(crate) fn new_request_id() -> (id: u128) {
    uuid::Uuid::new_v4().as_u128()
}

/// `Utc::now`: the current time in milliseconds since 1970. Nothing is claimed of its value.
/// It panics where the system's clock stands before 1970.
#[verifier::external_body]
pub(crate) fn now_ms() -> (t: u64) {
    chrono::Utc::now().timestamp_millis() as u64
}

/// The requests of a chart.
pub struct RequestHandler {
    requests: RequestTable,
}

/// `id` is that of the request for `range`.
pub open spec fn is_request_for(
    m: Map<u128, FetchRequest>,
    id: u128,
    range: FetchRange,
) -> bool {
    m.contains_key(id) && m[id].fetch_type == range
}

/// There is a request for `range`.
pub open spec fn has_request(m: Map<u128, FetchRequest>, range: FetchRange) -> bool {
    exists|id: u128| is_request_for(m, id, range)
}

/// The identifier of the request for `range`.
pub open spec fn request_for(m: Map<u128, FetchRequest>, range: FetchRange) -> u128 {
    choose|id: u128| is_request_for(m, id, range)
}

/// A request for `range` is under way.
pub open spec fn is_pending(m: Map<u128, FetchRequest>, range: FetchRange) -> bool {
    exists|id: u128| #[trigger]
        is_request_for(m, id, range) && m[id].status == RequestStatus::Pending
}

/// No two requests are for the same range.
pub open spec fn one_per_range(m: Map<u128, FetchRequest>) -> bool {
    forall|a: u128, b: u128|
        #![trigger m[a], m[b]]
        m.contains_key(a) && m.contains_key(b) && m[a].fetch_type == m[b].fetch_type ==> a == b
}

/// How long ago `ts` was at `now`; a time that is still to come, because the clock was set back,
/// counts as no time ago.
pub open spec fn elapsed(now: u64, ts: u64) -> int {
    if now >= ts {
        now - ts
    } else {
        0
    }
}

/// The requests with a request for `id` set to `status`, if there is one.
pub open spec fn with_status(
    m: Map<u128, FetchRequest>,
    id: u128,
    status: RequestStatus,
) -> Map<u128, FetchRequest> {
    if m.contains_key(id) {
        m.insert(id, FetchRequest { status, ..m[id] })
    } else {
        m
    }
}

/// What a request for `fetch` is answered, and the requests afterwards, where a new request
/// would get `new_id` and the time is `now`.
pub open spec fn requested(
    m: Map<u128, FetchRequest>,
    fetch: FetchRange,
    new_id: u128,
    now: u64,
) -> (Result<Option<u128>, ReqError>, Map<u128, FetchRequest>) {
    if has_request(m, fetch) {
        let id = request_for(m, fetch);
        match m[id].status {
            RequestStatus::Completed => (Ok(None), m),
            RequestStatus::Pending => (Err(ReqError::Overlaps), m),
            RequestStatus::NoData => (Err(ReqError::NoData), m),
            RequestStatus::Failed(ts) => if elapsed(now, ts) > RETRY_AFTER_MS {
                (Ok(Some(id)), with_status(m, id, RequestStatus::Pending))
            } else {
                (Err(ReqError::Failed), m)
            },
        }
    } else {
        (
            Ok(Some(new_id)),
            m.insert(
                new_id,
                FetchRequest { fetch_type: fetch, status: RequestStatus::Pending },
            ),
        )
    }
}

impl View for RequestHandler {
    type V = Map<u128, FetchRequest>;

    closed spec fn view(&self) -> Map<u128, FetchRequest> {
        self.requests@
    }
}

impl RequestHandler {
    /// No two requests are for the same range.
    pub open spec fn wf(&self) -> bool {
        one_per_range(self@)
    }

    /// A chart that has requested nothing.
    pub fn new() -> (h: RequestHandler)
        ensures
            h.wf(),
            h@ == Map::<u128, FetchRequest>::empty(),
    {
        let h = RequestHandler { requests: table_new() };
        assert(h@ =~= Map::<u128, FetchRequest>::empty());
        h
    }

    fn find(&self, range: &FetchRange) -> (r: Option<u128>)
        requires
            self.wf(),
        ensures
            match r {
                Some(id) => is_request_for(self@, id, *range) && has_request(self@, *range) && id
                    == request_for(self@, *range),
                None => !has_request(self@, *range),
            },
    {
        let ids: Vec<u128> = table_keys(&self.requests);
        let mut i: usize = 0;
        while i < ids.len()
            invariant
                i <= ids@.len(),
                self.wf(),
                forall|id: u128| self@.contains_key(id) <==> ids@.contains(id),
                forall|j: int| 0 <= j < i ==> self@[#[trigger] ids@[j]].fetch_type != *range,
            decreases ids@.len() - i,
        {
            let id: u128 = ids[i];
            assert(ids@.contains(id));
            match table_get(&self.requests, id) {
                Some(request) => {
                    if request.same_with_range(range) {
                        proof {
                            assert(is_request_for(self@, id, *range));
                            let other = request_for(self@, *range);
                            assert(is_request_for(self@, other, *range));
                            assert(self@[other].fetch_type == self@[id].fetch_type);
                        }
                        return Some(id);
                    }
                },
                None => {},
            }
            i += 1;
        }
        proof {
            if has_request(self@, *range) {
                let id = request_for(self@, *range);
                assert(is_request_for(self@, id, *range));
                assert(ids@.contains(id));
                let j = choose|j: int| 0 <= j < ids@.len() && ids@[j] == id;
                assert(self@[ids@[j]].fetch_type != *range);
            }
        }
        None
    }

    /// Asks for `fetch`, where a new request would get `id` and the time is `now`. `Ok(Some(_))`
    /// is the identifier to fetch under, `Ok(None)` means that the data is already there.
    pub fn add_request_at(&mut self, fetch: FetchRange, id: u128, now: u64) -> (r: Result<
        Option<u128>,
        ReqError,
    >)
        requires
            old(self).wf(),
        ensures
            final(self).wf(),
            (r, final(self)@) == requested(old(self)@, fetch, id, now),
    {
        let ghost before = self@;
        match self.find(&fetch) {
            None => {
                table_insert(&mut self.requests, id, FetchRequest::new(fetch));
                proof {
                    assert forall|a: u128, b: u128|
                        #![trigger self@[a], self@[b]]
                        self@.contains_key(a) && self@.contains_key(b) && self@[a].fetch_type
                            == self@[b].fetch_type implies a == b by {
                        if a != id && b != id {
                            assert(before[a].fetch_type == before[b].fetch_type);
                        } else if a != b {
                            let c = if a == id {
                                b
                            } else {
                                a
                            };
                            assert(is_request_for(before, c, fetch));
                        }
                    }
                }
                Ok(Some(id))
            },
            Some(existing) => {
                let request: FetchRequest = match table_get(&self.requests, existing) {
                    Some(request) => request,
                    None => {
                        return Ok(None);
                    },
                };
                match request.status {
                    RequestStatus::Completed => Ok(None),
                    RequestStatus::Pending => Err(ReqError::Overlaps),
                    RequestStatus::NoData => Err(ReqError::NoData),
                    RequestStatus::Failed(ts) => {
                        let waited: u64 = now.saturating_sub(ts);
                        if waited > RETRY_AFTER_MS {
                            self.set_status(existing, RequestStatus::Pending);
                            Ok(Some(existing))
                        } else {
                            Err(ReqError::Failed)
                        }
                    },
                }
            },
        }
    }

    fn set_status(&mut self, id: u128, status: RequestStatus)
        requires
            old(self).wf(),
        ensures
            final(self).wf(),
            final(self)@ == with_status(old(self)@, id, status),
    {
        let ghost before = self@;
        if let Some(request) = table_get(&self.requests, id) {
            table_insert(&mut self.requests, id, FetchRequest { status, ..request });
            proof {
                assert forall|a: u128, b: u128|
                    #![trigger self@[a], self@[b]]
                    self@.contains_key(a) && self@.contains_key(b) && self@[a].fetch_type
                        == self@[b].fetch_type implies a == b by {
                    assert(before[a].fetch_type == self@[a].fetch_type);
                    assert(before[b].fetch_type == self@[b].fetch_type);
                }
            }
        }
    }

    /// Asks for `fetch`. `Ok(Some(_))` is the identifier to fetch under, `Ok(None)` means that
    /// the data is already there.
    pub fn add_request(&mut self, fetch: FetchRange) -> (r: Result<Option<u128>, ReqError>)
        requires
            old(self).wf(),
        ensures
            final(self).wf(),
            exists|id: u128, now: u64|
                (r, final(self)@) == #[trigger] requested(old(self)@, fetch, id, now),
    {
        let id: u128 = new_request_id();
        let now: u64 = now_ms();
        self.add_request_at(fetch, id, now)
    }

    /// Whether a request for `range` is under way.
    pub fn has_pending(&self, range: &FetchRange) -> (r: bool)
        requires
            self.wf(),
        ensures
            r == is_pending(self@, *range),
    {
        match self.find(range) {
            Some(id) => {
                proof {
                    assert forall|other: u128| #[trigger]
                        is_request_for(self@, other, *range) implies other == id by {
                        assert(self@[other].fetch_type == self@[id].fetch_type);
                    }
                }
                match table_get(&self.requests, id) {
                    Some(request) => request.status == RequestStatus::Pending,
                    None => false,
                }
            },
            None => false,
        }
    }

    /// The data of a request has been inserted.
    pub fn mark_completed(&mut self, id: u128)
        requires
            old(self).wf(),
        ensures
            final(self).wf(),
            final(self)@ == with_status(old(self)@, id, RequestStatus::Completed),
    {
        self.set_status(id, RequestStatus::Completed);
    }

    /// The source returned an empty result; the range will never be retried.
    pub fn mark_no_data(&mut self, id: u128)
        requires
            old(self).wf(),
        ensures
            final(self).wf(),
            final(self)@ == with_status(old(self)@, id, RequestStatus::NoData),
    {
        self.set_status(id, RequestStatus::NoData);
    }

    /// A request failed at `now`.
    pub fn mark_failed_at(&mut self, id: u128, now: u64)
        requires
            old(self).wf(),
        ensures
            final(self).wf(),
            final(self)@ == with_status(old(self)@, id, RequestStatus::Failed(now)),
    {
        self.set_status(id, RequestStatus::Failed(now));
    }

    /// A request has just failed.
    pub fn mark_failed(&mut self, id: u128)
        requires
            old(self).wf(),
        ensures
            final(self).wf(),
            exists|now: u64|
                final(self)@ == #[trigger] with_status(
                    old(self)@,
                    id,
                    RequestStatus::Failed(now),
                ),
    {
        let now: u64 = now_ms();
        self.mark_failed_at(id, now);
    }
}

impl Default for RequestHandler {
    fn default() -> (h: RequestHandler)
        ensures
            h.wf(),
            h@ == Map::<u128, FetchRequest>::empty(),
    {
        RequestHandler::new()
    }
}

/// A range that has been fetched, or that the source has nothing for, is never requested again,
/// whatever the time.
pub proof fn finished_ranges_are_not_retried(
    m: Map<u128, FetchRequest>,
    fetch: FetchRange,
    id: u128,
    new_id: u128,
    now: u64,
)
    requires
        one_per_range(m),
        is_request_for(m, id, fetch),
        m[id].status == RequestStatus::Completed || m[id].status == RequestStatus::NoData,
    ensures
        requested(m, fetch, new_id, now) == (if m[id].status == RequestStatus::Completed {
            (Ok::<Option<u128>, ReqError>(None), m)
        } else {
            (Err::<Option<u128>, ReqError>(ReqError::NoData), m)
        }),
{
    lemma_the_request(m, fetch, id);
}

/// A failed range is requested again, under its old identifier, only once the pause is over.
pub proof fn failed_ranges_rest_before_a_retry(
    m: Map<u128, FetchRequest>,
    fetch: FetchRange,
    id: u128,
    new_id: u128,
    failed_at: u64,
    now: u64,
)
    requires
        one_per_range(m),
        is_request_for(m, id, fetch),
        m[id].status == RequestStatus::Failed(failed_at),
    ensures
        now - failed_at <= RETRY_AFTER_MS ==> requested(m, fetch, new_id, now) == (
            Err::<Option<u128>, ReqError>(ReqError::Failed),
            m,
        ),
        now - failed_at > RETRY_AFTER_MS ==> requested(m, fetch, new_id, now).0 == Ok::<
            Option<u128>,
            ReqError,
        >(Some(id)),
{
    lemma_the_request(m, fetch, id);
}

/// A request that was granted is pending afterwards, and asking for the same range again is
/// refused as an overlap until it is marked.
pub proof fn granted_requests_are_pending(
    m: Map<u128, FetchRequest>,
    fetch: FetchRange,
    new_id: u128,
    now: u64,
    later_id: u128,
    later: u64,
)
    requires
        one_per_range(m),
        requested(m, fetch, new_id, now).0 matches Ok(Some(_)),
    ensures
        ({
            let granted = requested(m, fetch, new_id, now);
            let id = granted.0->Ok_0->0;
            &&& is_request_for(granted.1, id, fetch)
            &&& granted.1[id].status == RequestStatus::Pending
            &&& requested(granted.1, fetch, later_id, later) == (
                Err::<Option<u128>, ReqError>(ReqError::Overlaps),
                granted.1,
            )
        }),
{
    let granted = requested(m, fetch, new_id, now);
    let id = granted.0->Ok_0->0;
    let after = granted.1;
    if has_request(m, fetch) {
        let old_id = request_for(m, fetch);
        assert(is_request_for(m, old_id, fetch));
    }
    assert(is_request_for(after, id, fetch));
    assert forall|a: u128| #[trigger] is_request_for(after, a, fetch) implies a == id by {
        if a != id {
            assert(is_request_for(m, a, fetch));
            if has_request(m, fetch) {
                assert(m[a].fetch_type == m[id].fetch_type);
            }
        }
    }
    assert(request_for(after, fetch) == id);
}

proof fn lemma_the_request(m: Map<u128, FetchRequest>, fetch: FetchRange, id: u128)
    requires
        one_per_range(m),
        is_request_for(m, id, fetch),
    ensures
        has_request(m, fetch),
        request_for(m, fetch) == id,
{
    let other = request_for(m, fetch);
    assert(is_request_for(m, other, fetch));
    assert(m[other].fetch_type == m[id].fetch_type);
}

} // verus!
