use logcore::search::{
    filter_matches, handle, search_begin, search_conclude, search_progress_tick,
    CancellationToken, FilterStats, NativeErrorKind, Record, ScanOutcome, SearchFilter,
    SearchHolder, SearchResults, SessionState, Severity,
};

fn rec(text: &str) -> Record {
    Record { content: text.as_bytes().to_vec() }
}

fn filt(pat: &str) -> SearchFilter {
    SearchFilter::new(pat.as_bytes().to_vec())
}

#[test]
fn substring_matching() {
    assert!(filter_matches(&rec("error: disk full"), &filt("disk")));
    assert!(filter_matches(&rec("error"), &filt("error")));
    assert!(filter_matches(&rec("error"), &filt("")));
    assert!(!filter_matches(&rec("err"), &filt("error")));
    assert!(!filter_matches(&rec(""), &filt("x")));
    assert!(filter_matches(&rec("abcabd"), &filt("abd")));
}

#[test]
fn empty_filter_list_yields_zero_and_no_holder() {
    let mut state = SessionState::new();
    // even with prior state installed
    state.set_search_holder(Some(SearchHolder::new(9)), 9);
    let records = vec![rec("a"), rec("b")];
    let token = CancellationToken::new(false);
    let out = handle(1, vec![], &records, &token, &mut state).unwrap();
    assert_eq!(out.found, 0);
    assert_eq!(out.stats, FilterStats::new(vec![]));
    assert!(state.search_holder.is_none());
    assert!(state.matches.is_none());
    assert!(!state.search_configured);
}

#[test]
fn three_filters_over_ten_records() {
    // 2 records match filter A only, 1 matches filter B only
    let records = vec![
        rec("plain record one"),
        rec("alpha hit"),
        rec("plain record two"),
        rec("plain record three"),
        rec("alpha again"),
        rec("plain record four"),
        rec("bravo hit"),
        rec("plain record five"),
        rec("plain record six"),
        rec("plain record seven"),
    ];
    let filters = vec![filt("alpha"), filt("bravo"), filt("charlie")];
    let mut state = SessionState::new();
    let token = CancellationToken::new(false);
    let out = handle(7, filters, &records, &token, &mut state).unwrap();
    assert_eq!(out.found, 3);
    assert_eq!(out.stats, FilterStats::new(vec![2, 1, 0]));
    assert_eq!(state.matches.as_ref().unwrap(), &vec![1u64, 4, 6]);
    assert!(state.search_configured);
    let holder = state.search_holder.as_ref().unwrap();
    assert_eq!(holder.op_id, 7);
    assert_eq!(holder.filters.len(), 3);
}

#[test]
fn cancellation_clears_all_search_state() {
    let records = vec![rec("alpha"), rec("beta")];
    let mut state = SessionState::new();
    let token = CancellationToken::new(true);
    let out = handle(3, vec![filt("alpha")], &records, &token, &mut state).unwrap();
    assert_eq!(out.found, 0);
    assert_eq!(out.stats, FilterStats::new(vec![]));
    assert!(state.search_holder.is_none());
    assert!(state.matches.is_none());
    assert!(!state.search_configured);
}

#[test]
fn second_search_shadows_the_first() {
    let records = vec![rec("alpha"), rec("bravo"), rec("alpha bravo")];
    let mut state = SessionState::new();
    let token = CancellationToken::new(false);

    let first = handle(1, vec![filt("alpha")], &records, &token, &mut state).unwrap();
    assert_eq!(first.found, 2);

    let second = handle(2, vec![filt("bravo")], &records, &token, &mut state).unwrap();
    assert_eq!(second.found, 2);

    // only the second search's outcome is visible in session state
    let holder = state.search_holder.as_ref().unwrap();
    assert_eq!(holder.op_id, 2);
    assert_eq!(holder.filters, vec![filt("bravo")]);
    assert_eq!(state.matches.as_ref().unwrap(), &vec![1u64, 2]);
}

#[test]
fn execute_search_observes_cancellation() {
    let mut holder = SearchHolder::new(5);
    holder.set_filters(vec![filt("alpha")]);
    let records = vec![rec("alpha"), rec("alpha")];
    let res = holder.execute_search(&records, &CancellationToken::new(true));
    assert_eq!(res.processed, 0);
    assert!(res.matches.is_empty());

    let res = holder.execute_search(&records, &CancellationToken::new(false));
    assert_eq!(res.processed, 2);
    assert_eq!(res.matches, vec![0u64, 1]);
    assert_eq!(res.stats, FilterStats::new(vec![2]));
}

#[test]
fn closed_rendezvous_is_an_operation_error() {
    let mut state = SessionState::new();
    let err = search_conclude(ScanOutcome::ChannelClosed, &mut state, 4).unwrap_err();
    assert_eq!(err.kind, NativeErrorKind::OperationSearch);
    assert_eq!(err.severity, Severity::ERROR);
    assert_eq!(err.message, Some(String::from("Fail to receive search results")));
}

#[test]
fn begin_tears_down_and_installs_filters() {
    let mut state = SessionState::new();
    state.set_search_holder(Some(SearchHolder::new(1)), 1);
    state.set_matches(Some(vec![0]));

    assert!(search_begin(2, vec![], &mut state).is_none());
    assert!(state.search_holder.is_none());
    assert!(state.matches.is_none());
    assert!(!state.search_configured);

    state.set_search_holder(Some(SearchHolder::new(1)), 1);
    let holder = search_begin(2, vec![filt("x")], &mut state).unwrap();
    assert_eq!(holder.op_id, 2);
    assert_eq!(holder.filters, vec![filt("x")]);
    assert!(state.search_holder.is_none());
}

#[test]
fn progress_tick_clears_intermediate_matches_unless_cancelled() {
    let mut state = SessionState::new();
    state.set_search_holder(Some(SearchHolder::new(1)), 1);
    state.set_matches(Some(vec![7]));

    search_progress_tick(&mut state, &CancellationToken::new(true));
    assert_eq!(state.matches, Some(vec![7]));

    search_progress_tick(&mut state, &CancellationToken::new(false));
    assert!(state.matches.is_none());
    assert!(state.search_configured);
    assert!(state.search_holder.is_some());
}

#[test]
fn scan_failure_propagates_its_message() {
    let mut state = SessionState::new();
    let err = search_conclude(
        ScanOutcome::ScanFailed(String::from("grabber is gone")),
        &mut state,
        4,
    )
    .unwrap_err();
    assert_eq!(err.kind, NativeErrorKind::OperationSearch);
    assert_eq!(err.message, Some(String::from("grabber is gone")));
}

#[test]
fn delivered_outcome_is_committed() {
    let mut state = SessionState::new();
    let mut holder = SearchHolder::new(8);
    holder.set_filters(vec![filt("x")]);
    let results = SearchResults {
        processed: 4,
        matches: vec![1, 3],
        stats: FilterStats::new(vec![2]),
    };
    let out = search_conclude(ScanOutcome::Delivered(holder, results), &mut state, 8).unwrap();
    assert_eq!(out.found, 2);
    assert_eq!(out.stats, FilterStats::new(vec![2]));
    assert!(state.search_configured);
    assert_eq!(state.search_holder.as_ref().unwrap().op_id, 8);
    assert_eq!(state.matches.as_ref().unwrap(), &vec![1u64, 3]);
}
