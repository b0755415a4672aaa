//! Cancellable search over decoded records.
//!
//! A `SearchHolder` owns the compiled filter set of one search operation
//! and produces match results by scanning records. `handle` drives one
//! search request end to end against the session state: it first tears
//! down any prior search state (at most one search is active per
//! session), runs the scan unless cancellation already fired, and then
//! commits, fails or clears — a cancelled search never leaves a stale
//! holder or matches behind.

use vstd::prelude::*;
use vstd::string::StringExecFns;

verus! {

/// One scannable record: the rendered content of a decoded log message.
#[derive(Debug, Clone, PartialEq, Eq)]
pub struct Record {
    pub content: Vec<u8>,
}

/// One matching criterion: a byte pattern looked for anywhere in a
/// record's content.
#[derive(Debug, Clone, PartialEq, Eq)]
pub struct SearchFilter {
    pub pattern: Vec<u8>,
}

impl SearchFilter {
    pub fn new(pattern: Vec<u8>) -> (r: SearchFilter)
        ensures
            r.pattern@ == pattern@,
    {
        SearchFilter { pattern }
    }
}

/// The pattern occurs in `content` starting at position `i`.
pub open spec fn matches_at(content: Seq<u8>, pat: Seq<u8>, i: int) -> bool {
    &&& 0 <= i
    &&& i + pat.len() <= content.len()
    &&& content.subrange(i, i + pat.len()) == pat
}

/// The pattern occurs somewhere in `content`.
pub open spec fn record_matches(content: Seq<u8>, pat: Seq<u8>) -> bool {
    exists|i: int| matches_at(content, pat, i)
}

pub open spec fn rec_seq(records: Seq<Record>) -> Seq<Seq<u8>> {
    records.map_values(|r: Record| r.content@)
}

pub open spec fn pat_seq(filters: Seq<SearchFilter>) -> Seq<Seq<u8>> {
    filters.map_values(|f: SearchFilter| f.pattern@)
}

/// Some filter of the set matches the content.
pub open spec fn any_filter_matches(content: Seq<u8>, pats: Seq<Seq<u8>>) -> bool {
    exists|k: int| 0 <= k < pats.len() && record_matches(content, pats[k])
}

/// Positions (in record order) of the records among the first `n` that
/// some filter matches.
pub open spec fn match_positions(recs: Seq<Seq<u8>>, pats: Seq<Seq<u8>>, n: int) -> Seq<u64>
    decreases n,
{
    if n <= 0 {
        Seq::<u64>::empty()
    } else {
        match_positions(recs, pats, n - 1) + (if any_filter_matches(recs[n - 1], pats) {
            seq![(n - 1) as u64]
        } else {
            Seq::<u64>::empty()
        })
    }
}

/// How many of the first `n` records one pattern matches.
pub open spec fn hit_count(recs: Seq<Seq<u8>>, pat: Seq<u8>, n: int) -> int
    decreases n,
{
    if n <= 0 {
        0
    } else {
        hit_count(recs, pat, n - 1) + (if record_matches(recs[n - 1], pat) {
            1int
        } else {
            0
        })
    }
}

fn match_at(content: &Vec<u8>, pat: &Vec<u8>, i: usize) -> (r: bool)
    requires
        i + pat@.len() <= content@.len(),
    ensures
        r == matches_at(content@, pat@, i as int),
{
    let cl = content.len();
    let pl = pat.len();
    let mut j: usize = 0;
    while j < pl
        invariant
            cl == content@.len(),
            pl == pat@.len(),
            i + pat@.len() <= content@.len(),
            j <= pat@.len(),
            forall|t: int| 0 <= t < j ==> content@[i + t] == pat@[t],
        decreases pat@.len() - j,
    {
        if content[i + j] != pat[j] {
            proof {
                assert(content@.subrange(i as int, i + pat@.len())[j as int] == content@[i + j]);
            }
            return false;
        }
        j = j + 1;
    }
    proof {
        assert(content@.subrange(i as int, i + pat@.len()) =~= pat@);
    }
    true
}

/// Whether the filter's pattern occurs anywhere in the record.
pub fn filter_matches(rec: &Record, f: &SearchFilter) -> (r: bool)
    ensures
        r == record_matches(rec.content@, f.pattern@),
{
    let clen = rec.content.len();
    let plen = f.pattern.len();
    if plen > clen {
        proof {
            assert(forall|i: int| !matches_at(rec.content@, f.pattern@, i));
        }
        return false;
    }
    if plen == 0 {
        proof {
            assert(matches_at(rec.content@, f.pattern@, 0)) by {
                assert(rec.content@.subrange(0, 0) =~= f.pattern@);
            }
        }
        return true;
    }
    let mut i: usize = 0;
    while i <= clen - plen
        invariant
            1 <= plen <= clen,
            clen == rec.content@.len(),
            plen == f.pattern@.len(),
            i <= clen - plen + 1,
            forall|t: int| 0 <= t < i ==> !matches_at(rec.content@, f.pattern@, t),
        decreases clen - plen + 1 - i,
    {
        if match_at(&rec.content, &f.pattern, i) {
            return true;
        }
        i = i + 1;
    }
    proof {
        assert forall|t: int| !matches_at(rec.content@, f.pattern@, t) by {
            if 0 <= t && t + f.pattern@.len() <= rec.content@.len() {
                assert(t < i);
            }
        }
    }
    false
}

fn any_filter_match(rec: &Record, filters: &Vec<SearchFilter>) -> (r: bool)
    ensures
        r == any_filter_matches(rec.content@, pat_seq(filters@)),
{
    let mut k: usize = 0;
    while k < filters.len()
        invariant
            k <= filters@.len(),
            forall|t: int| 0 <= t < k ==> !record_matches(rec.content@, pat_seq(filters@)[t]),
        decreases filters@.len() - k,
    {
        if filter_matches(rec, &filters[k]) {
            proof {
                assert(pat_seq(filters@)[k as int] == filters@[k as int].pattern@);
            }
            return true;
        }
        k = k + 1;
    }
    false
}

fn count_hits(records: &Vec<Record>, f: &SearchFilter) -> (r: u64)
    ensures
        r == hit_count(rec_seq(records@), f.pattern@, records@.len() as int),
        r <= records@.len(),
{
    let mut c: u64 = 0;
    let mut i: usize = 0;
    while i < records.len()
        invariant
            i <= records@.len(),
            c == hit_count(rec_seq(records@), f.pattern@, i as int),
            c <= i,
        decreases records@.len() - i,
    {
        if filter_matches(&records[i], f) {
            c = c + 1;
        }
        i = i + 1;
        proof {
            assert(rec_seq(records@)[i - 1] == records@[i - 1].content@);
        }
    }
    c
}

/// Per-filter match counts, in filter order.
#[derive(Debug, Clone, PartialEq, Eq)]
pub struct FilterStats(pub Vec<u64>);

impl FilterStats {
    pub fn new(counts: Vec<u64>) -> (r: FilterStats)
        ensures
            r.0@ == counts@,
    {
        FilterStats(counts)
    }
}

/// What one finished scan reports: the processed-record count, the match
/// positions in record order, and per-filter statistics.
#[derive(Debug, Clone, PartialEq, Eq)]
pub struct SearchResults {
    pub processed: usize,
    pub matches: Vec<u64>,
    pub stats: FilterStats,
}

/// What the search operation answers its caller.
#[derive(Debug, Clone, PartialEq, Eq)]
pub struct SearchOperationResult {
    pub found: usize,
    pub stats: FilterStats,
}

impl SearchOperationResult {
    /// The zero-result outcome: nothing found, no per-filter statistics.
    pub fn empty() -> (r: SearchOperationResult)
        ensures
            r.found == 0,
            r.stats.0@.len() == 0,
    {
        SearchOperationResult { found: 0, stats: FilterStats::new(Vec::new()) }
    }
}

#[derive(Debug, Clone, Copy, PartialEq, Eq, Structural)]
pub enum Severity {
    WARNING,
    ERROR,
}

#[derive(Debug, Clone, Copy, PartialEq, Eq, Structural)]
pub enum NativeErrorKind {
    OperationSearch,
}

/// Failure of the search operation itself (the scan failed to run or to
/// deliver); cancellation is not an error.
#[derive(Debug, Clone, PartialEq, Eq)]
pub struct NativeError {
    pub severity: Severity,
    pub kind: NativeErrorKind,
    pub message: Option<String>,
}

/// Shared, level-triggered, cooperative cancellation flag: holders
/// observe it but cannot force the other side to stop.
#[derive(Debug, Clone, Copy, PartialEq, Eq, Structural)]
pub struct CancellationToken {
    cancelled: bool,
}

impl CancellationToken {
    pub closed spec fn is_cancelled_spec(&self) -> bool {
        self.cancelled
    }

    pub fn new(cancelled: bool) -> (r: CancellationToken)
        ensures
            r.is_cancelled_spec() == cancelled,
    {
        CancellationToken { cancelled }
    }

    pub fn is_cancelled(&self) -> (r: bool)
        ensures
            r == self.is_cancelled_spec(),
    {
        self.cancelled
    }
}

/// Owns the compiled filters of one search operation and produces match
/// results by scanning records.
#[derive(Debug, Clone, PartialEq, Eq)]
pub struct SearchHolder {
    pub op_id: u64,
    pub filters: Vec<SearchFilter>,
}

impl SearchHolder {
    pub fn new(op_id: u64) -> (r: SearchHolder)
        ensures
            r.op_id == op_id,
            r.filters@.len() == 0,
    {
        SearchHolder { op_id, filters: Vec::new() }
    }

    /// Replace the filter set wholesale; there is no incremental editing.
    pub fn set_filters(&mut self, filters: Vec<SearchFilter>)
        ensures
            final(self).op_id == old(self).op_id,
            final(self).filters@ == filters@,
    {
        self.filters = filters;
    }

    /// Scan the records against the installed filters. With the
    /// cancellation flag clear the results are exact: every processed
    /// record, the position of every record some filter matches, and the
    /// per-filter hit counts. With the flag set the scan stops at once
    /// and reports nothing.
    pub fn execute_search(&self, records: &Vec<Record>, cancel: &CancellationToken) -> (r:
        SearchResults)
        ensures
            !cancel.is_cancelled_spec() ==> {
                &&& r.processed == records@.len()
                &&& r.matches@ == match_positions(
                    rec_seq(records@),
                    pat_seq(self.filters@),
                    records@.len() as int,
                )
                &&& r.stats.0@.len() == self.filters@.len()
                &&& forall|k: int|
                    0 <= k < self.filters@.len() ==> r.stats.0@[k] == hit_count(
                        rec_seq(records@),
                        pat_seq(self.filters@)[k],
                        records@.len() as int,
                    )
            },
            cancel.is_cancelled_spec() ==> {
                &&& r.processed == 0
                &&& r.matches@.len() == 0
                &&& r.stats.0@.len() == 0
            },
    {
        if cancel.is_cancelled() {
            return SearchResults {
                processed: 0,
                matches: Vec::new(),
                stats: FilterStats::new(Vec::new()),
            };
        }
        let mut matches: Vec<u64> = Vec::new();
        let mut i: usize = 0;
        while i < records.len()
            invariant
                i <= records@.len(),
                matches@ == match_positions(rec_seq(records@), pat_seq(self.filters@), i as int),
            decreases records@.len() - i,
        {
            let hit = any_filter_match(&records[i], &self.filters);
            proof {
                assert(rec_seq(records@)[i as int] == records@[i as int].content@);
            }
            if hit {
                let ghost before = matches@;
                matches.push(i as u64);
                proof {
                    assert(matches@ =~= before + seq![i as u64]);
                }
            } else {
                proof {
                    assert(matches@ =~= matches@ + Seq::<u64>::empty());
                }
            }
            i = i + 1;
        }
        let mut counts: Vec<u64> = Vec::new();
        let mut k: usize = 0;
        while k < self.filters.len()
            invariant
                k <= self.filters@.len(),
                counts@.len() == k,
                forall|t: int|
                    0 <= t < k ==> counts@[t] == hit_count(
                        rec_seq(records@),
                        pat_seq(self.filters@)[t],
                        records@.len() as int,
                    ),
            decreases self.filters@.len() - k,
        {
            let c = count_hits(records, &self.filters[k]);
            proof {
                assert(pat_seq(self.filters@)[k as int] == self.filters@[k as int].pattern@);
            }
            counts.push(c);
            k = k + 1;
        }
        SearchResults { processed: records.len(), matches, stats: FilterStats::new(counts) }
    }
}

/// The narrow, already-synchronized session-store surface this core
/// consumes: at most one holder, one published match set, one
/// search-configured flag.
#[derive(Debug, Clone, PartialEq, Eq)]
pub struct SessionState {
    pub search_holder: Option<SearchHolder>,
    pub matches: Option<Vec<u64>>,
    pub search_configured: bool,
}

impl SessionState {
    pub fn new() -> (r: SessionState)
        ensures
            r.search_holder is None,
            r.matches is None,
            !r.search_configured,
    {
        SessionState { search_holder: None, matches: None, search_configured: false }
    }

    /// Unconditionally clear all active-search state.
    pub fn drop_search(&mut self)
        ensures
            final(self).search_holder is None,
            final(self).matches is None,
            !final(self).search_configured,
    {
        self.search_holder = None;
        self.matches = None;
        self.search_configured = false;
    }

    /// Fetch-or-create the holder for this operation; the fetched holder
    /// leaves the session (exactly one owner at any instant).
    pub fn get_search_holder(&mut self, op_id: u64) -> (h: SearchHolder)
        ensures
            final(self).search_holder is None,
            final(self).matches == old(self).matches,
            final(self).search_configured == old(self).search_configured,
            old(self).search_holder matches Some(prior) ==> h == prior,
            old(self).search_holder is None ==> h.op_id == op_id && h.filters@.len() == 0,
    {
        match self.search_holder.take() {
            Option::Some(h) => h,
            Option::None => SearchHolder::new(op_id),
        }
    }

    /// Persist or clear the holder; the configured flag follows it.
    pub fn set_search_holder(&mut self, holder: Option<SearchHolder>, _op_id: u64)
        ensures
            final(self).search_holder == holder,
            final(self).search_configured == (holder is Some),
            final(self).matches == old(self).matches,
    {
        self.search_configured = match &holder {
            Option::Some(_) => true,
            Option::None => false,
        };
        self.search_holder = holder;
    }

    /// Publish the current match set, or clear it with `None`.
    pub fn set_matches(&mut self, matches: Option<Vec<u64>>)
        ensures
            final(self).matches == matches,
            final(self).search_holder == old(self).search_holder,
            final(self).search_configured == old(self).search_configured,
    {
        self.matches = matches;
    }
}

/// How one offloaded scan ended, as the orchestrator observes it.
pub enum ScanOutcome {
    /// The scan handed back the holder and its results through the
    /// rendezvous.
    Delivered(SearchHolder, SearchResults),
    /// The scan ran but reported a failure.
    ScanFailed(String),
    /// The rendezvous closed without a result.
    ChannelClosed,
    /// Cancellation fired before a result was received; the result, if
    /// any, must not be delivered.
    Cancelled,
}

/// Commit one scan outcome to the session. Delivered results are
/// persisted (holder, matches) and reported; failures propagate without
/// touching the session further; cancellation explicitly clears both the
/// holder and the configured flag — never leaving a stale holder — and
/// reports a zero-result outcome.
pub fn search_conclude(outcome: ScanOutcome, state: &mut SessionState, op_id: u64) -> (r: Result<
    SearchOperationResult,
    NativeError,
>)
    ensures
        outcome matches ScanOutcome::Delivered(h, res) ==> {
            &&& final(state).search_holder == Some(h)
            &&& final(state).search_configured
            &&& final(state).matches matches Some(m) && m@ == res.matches@
            &&& r matches Ok(out) && out.found == res.matches@.len() && out.stats == res.stats
        },
        outcome matches ScanOutcome::ScanFailed(msg) ==> {
            &&& *final(state) == *old(state)
            &&& r matches Err(e) && e.kind == NativeErrorKind::OperationSearch && e.severity
                == Severity::ERROR && e.message == Some(msg)
        },
        outcome is ChannelClosed ==> {
            &&& *final(state) == *old(state)
            &&& r matches Err(e) && e.kind == NativeErrorKind::OperationSearch && e.severity
                == Severity::ERROR && (e.message matches Some(t) && t@
                == "Fail to receive search results"@)
        },
        outcome is Cancelled ==> {
            &&& final(state).search_holder is None
            &&& !final(state).search_configured
            &&& final(state).matches is None
            &&& r matches Ok(out) && out.found == 0 && out.stats.0@.len() == 0
        },
{
    match outcome {
        ScanOutcome::Delivered(holder, results) => {
            let found = results.matches.len();
            state.set_search_holder(Some(holder), op_id);
            state.set_matches(Some(results.matches));
            Ok(SearchOperationResult { found, stats: results.stats })
        },
        ScanOutcome::ScanFailed(msg) => Err(
            NativeError {
                severity: Severity::ERROR,
                kind: NativeErrorKind::OperationSearch,
                message: Some(msg),
            },
        ),
        ScanOutcome::ChannelClosed => Err(
            NativeError {
                severity: Severity::ERROR,
                kind: NativeErrorKind::OperationSearch,
                message: Some(String::from_str("Fail to receive search results")),
            },
        ),
        ScanOutcome::Cancelled => {
            state.set_search_holder(None, op_id);
            state.drop_search();
            Ok(SearchOperationResult { found: 0, stats: FilterStats::new(Vec::new()) })
        },
    }
}

/// Start one search request: unconditionally tear down any prior search
/// state for the session (at most one search is active, enforced by
/// drop-then-recreate), then — an empty filter list being the degenerate
/// terminal transition, owed a zero result with no holder created —
/// install the filters in a fresh holder for this operation.
pub fn search_begin(op_id: u64, filters: Vec<SearchFilter>, state: &mut SessionState) -> (r:
    Option<SearchHolder>)
    ensures
        final(state).search_holder is None,
        final(state).matches is None,
        !final(state).search_configured,
        filters@.len() == 0 ==> r is None,
        filters@.len() > 0 ==> (r matches Some(h) && h.op_id == op_id && h.filters@ == filters@),
{
    state.drop_search();
    if filters.len() == 0 {
        None
    } else {
        let mut holder = state.get_search_holder(op_id);
        holder.set_filters(filters);
        Some(holder)
    }
}

/// One progress tick of the orchestrator's bounded poll: no result has
/// arrived yet, so publish the empty intermediate view — observers see
/// live progress — unless cancellation has already fired, in which case
/// the session is left untouched. A tick never stops the search.
pub fn search_progress_tick(state: &mut SessionState, cancel: &CancellationToken)
    ensures
        cancel.is_cancelled_spec() ==> *final(state) == *old(state),
        !cancel.is_cancelled_spec() ==> {
            &&& final(state).matches is None
            &&& final(state).search_holder == old(state).search_holder
            &&& final(state).search_configured == old(state).search_configured
        },
{
    if !cancel.is_cancelled() {
        state.set_matches(None);
    }
}

/// The search-related session fields, abstractly: the holder's operation
/// id and filter patterns, the configured flag, the match positions.
pub open spec fn session_search_view(s: SessionState) -> (
    Option<(u64, Seq<Seq<u8>>)>,
    bool,
    Option<Seq<u64>>,
) {
    (
        match s.search_holder {
            Option::Some(h) => Option::Some((h.op_id, pat_seq(h.filters@))),
            Option::None => Option::None,
        },
        s.search_configured,
        match s.matches {
            Option::Some(m) => Option::Some(m@),
            Option::None => Option::None,
        },
    )
}

/// What the session's search fields hold after one `handle` call: a
/// function of that call's own inputs alone — nothing of any earlier
/// search survives, which is how at-most-one-active-search is enforced
/// (drop-then-recreate, not a lock).
pub open spec fn session_view_after_search(
    op_id: u64,
    pats: Seq<Seq<u8>>,
    recs: Seq<Seq<u8>>,
    cancelled: bool,
) -> (Option<(u64, Seq<Seq<u8>>)>, bool, Option<Seq<u64>>) {
    if pats.len() == 0 || cancelled {
        (Option::None, false, Option::None)
    } else {
        (
            Option::Some((op_id, pats)),
            true,
            Option::Some(match_positions(recs, pats, recs.len() as int)),
        )
    }
}

/// Run one search request end to end: tear down any prior search state,
/// answer a zero result for an empty filter list, otherwise install the
/// filters in a fresh holder, scan, and commit — unless cancellation
/// fired, in which case all search state is cleared and a zero result
/// reported. The final session state is a function of this call's inputs
/// alone (see `session_view_after_search`): a second search never lets
/// the first's in-flight result become observable.
pub fn handle(
    op_id: u64,
    filters: Vec<SearchFilter>,
    records: &Vec<Record>,
    cancel: &CancellationToken,
    state: &mut SessionState,
) -> (r: Result<SearchOperationResult, NativeError>)
    ensures
        session_search_view(*final(state)) == session_view_after_search(
            op_id,
            pat_seq(filters@),
            rec_seq(records@),
            cancel.is_cancelled_spec(),
        ),
        filters@.len() == 0 ==> (r matches Ok(out) && out.found == 0 && out.stats.0@.len() == 0),
        filters@.len() > 0 && cancel.is_cancelled_spec() ==> (r matches Ok(out) && out.found == 0
            && out.stats.0@.len() == 0),
        filters@.len() > 0 && !cancel.is_cancelled_spec() ==> {
            &&& r matches Ok(out)
            &&& out.found == match_positions(
                rec_seq(records@),
                pat_seq(filters@),
                records@.len() as int,
            ).len()
            &&& out.stats.0@.len() == filters@.len()
            &&& forall|k: int|
                0 <= k < filters@.len() ==> out.stats.0@[k] == hit_count(
                    rec_seq(records@),
                    pat_seq(filters@)[k],
                    records@.len() as int,
                )
        },
{
    let holder = match search_begin(op_id, filters, state) {
        Option::None => {
            return Ok(SearchOperationResult::empty());
        },
        Option::Some(holder) => holder,
    };
    let results = holder.execute_search(records, cancel);
    if cancel.is_cancelled() {
        search_conclude(ScanOutcome::Cancelled, state, op_id)
    } else {
        search_conclude(ScanOutcome::Delivered(holder, results), state, op_id)
    }
}

} // verus!
