use ripunzip::seekable_http_reader::{
    fetch_status_ok, probe_outcome, AccessPattern, EngineState, ProbeOutcome, ReadStep, FORWARD_SKIP_BUDGET,
};

/// Plays the server for an engine state: a ranged fetch over `remote`.
struct Remote {
    data: Vec<u8>,
    fetch_at: Option<usize>,
    opens: usize,
}

impl Remote {
    fn new(data: Vec<u8>) -> Remote {
        Remote { data, fetch_at: None, opens: 0 }
    }

    fn take(&mut self, k: usize) -> Vec<u8> {
        let at = self.fetch_at.unwrap();
        let end = std::cmp::min(at + k, self.data.len());
        self.fetch_at = Some(end);
        self.data[at..end].to_vec()
    }

    fn read(&mut self, state: &mut EngineState, pos: u64, max: usize) -> Vec<u8> {
        loop {
            match state.next_step(pos, max) {
                ReadStep::Empty => return Vec::new(),
                ReadStep::Serve => return state.serve(pos, max),
                ReadStep::Open(at) => {
                    self.fetch_at = Some(at as usize);
                    self.opens += 1;
                    state.opened(at);
                }
                ReadStep::Fetch(k) => {
                    let bytes = self.take(k);
                    state.fetched(bytes);
                }
                ReadStep::Discard(k) => {
                    let n = self.take(k).len();
                    state.discarded(n);
                }
            }
        }
    }
}

fn sample(len: usize) -> Vec<u8> {
    (0..len).map(|i| (i % 251) as u8).collect()
}

#[test]
fn ascending_reads_use_one_fetch() {
    let data = sample(5000);
    let mut remote = Remote::new(data.clone());
    let mut state = EngineState::new(5000, None, AccessPattern::SequentialIsh);
    let mut pos: u64 = 0;
    while pos < 5000 {
        let got = remote.read(&mut state, pos, 300);
        assert!(!got.is_empty());
        assert_eq!(&got[..], &data[pos as usize..pos as usize + got.len()]);
        pos += got.len() as u64 + 17;
    }
    assert_eq!(remote.opens, 1);
    assert_eq!(state.get_stats().rewinds, 0);
}

#[test]
fn ascending_reads_with_small_readahead_evict_but_do_not_rewind() {
    let data = sample(20000);
    let mut remote = Remote::new(data.clone());
    let mut state = EngineState::new(20000, Some(1000), AccessPattern::SequentialIsh);
    let mut pos: u64 = 0;
    while pos < 20000 {
        let got = remote.read(&mut state, pos, 700);
        assert_eq!(&got[..], &data[pos as usize..pos as usize + got.len()]);
        pos += got.len() as u64;
    }
    let stats = state.get_stats();
    assert!(stats.cache_shrinks > 0);
    assert!(state.readahead_too_small());
    assert_eq!(stats.rewinds, 0);
    assert_eq!(stats.total_fetched_bytes, 20000);
    assert_eq!(remote.opens, 1);
}

#[test]
fn backward_read_in_sequential_mode_is_a_rewind() {
    let data = sample(4000);
    let mut remote = Remote::new(data.clone());
    let mut state = EngineState::new(4000, Some(100), AccessPattern::SequentialIsh);
    let a = remote.read(&mut state, 3000, 50);
    assert_eq!(&a[..], &data[3000..3050]);
    let b = remote.read(&mut state, 10, 50);
    assert_eq!(&b[..], &data[10..60]);
    assert_eq!(remote.opens, 2);
    assert_eq!(state.get_stats().rewinds, 1);
}

#[test]
fn random_access_reopens_without_counting_rewinds() {
    let data = sample(4000);
    let mut remote = Remote::new(data.clone());
    let mut state = EngineState::new(4000, None, AccessPattern::RandomAccess);
    let a = remote.read(&mut state, 3990, 10);
    assert_eq!(&a[..], &data[3990..4000]);
    let b = remote.read(&mut state, 0, 4);
    assert_eq!(&b[..], &data[0..4]);
    assert_eq!(remote.opens, 2);
    assert_eq!(state.get_stats().rewinds, 0);
    assert_eq!(state.get_stats().total_fetched_bytes, 14);
}

#[test]
fn read_at_or_past_end_is_empty() {
    let state = EngineState::new(10, None, AccessPattern::RandomAccess);
    assert_eq!(state.next_step(10, 5), ReadStep::Empty);
    assert_eq!(state.next_step(3, 0), ReadStep::Empty);
    assert_eq!(state.next_step(3, 5), ReadStep::Open(3));
}

#[test]
fn forward_gap_within_budget_is_discarded() {
    let mut state = EngineState::new(10_000_000, None, AccessPattern::SequentialIsh);
    state.opened(0);
    assert_eq!(state.next_step(500, 10), ReadStep::Discard(500));
    assert_eq!(
        state.next_step(FORWARD_SKIP_BUDGET + 1, 10),
        ReadStep::Open(FORWARD_SKIP_BUDGET + 1)
    );
    state.discarded(500);
    assert_eq!(state.next_step(500, 10), ReadStep::Fetch(1048576));
}

#[test]
fn random_access_fetches_only_what_is_asked() {
    let mut state = EngineState::new(1000, None, AccessPattern::RandomAccess);
    state.opened(100);
    assert_eq!(state.next_step(100, 30), ReadStep::Fetch(30));
    let mut tight = EngineState::new(1000, Some(8), AccessPattern::RandomAccess);
    tight.opened(100);
    assert_eq!(tight.next_step(100, 30), ReadStep::Fetch(8));
    let mut near_end = EngineState::new(1000, None, AccessPattern::SequentialIsh);
    near_end.opened(990);
    assert_eq!(near_end.next_step(990, 30), ReadStep::Fetch(10));
}

#[test]
fn fetched_bytes_past_the_end_are_ignored() {
    let mut state = EngineState::new(4, None, AccessPattern::RandomAccess);
    state.opened(2);
    state.fetched(vec![7, 8, 9]);
    assert_eq!(state.next_step(2, 10), ReadStep::Serve);
    assert_eq!(state.serve(2, 10), vec![7, 8]);
    assert_eq!(state.get_stats().total_fetched_bytes, 2);
}

#[test]
fn long_skip_hint_drops_the_fetch() {
    let mut state = EngineState::new(10_000_000, None, AccessPattern::SequentialIsh);
    state.opened(0);
    state.read_skip_expected(10);
    assert_eq!(state.next_step(5, 1), ReadStep::Discard(5));
    state.read_skip_expected(FORWARD_SKIP_BUDGET + 1);
    assert_eq!(state.next_step(5, 1), ReadStep::Open(5));
    state.opened(5);
    assert_eq!(state.get_stats().rewinds, 0);
}

#[test]
fn pattern_switch_drops_the_fetch() {
    let mut state = EngineState::new(100, None, AccessPattern::RandomAccess);
    state.opened(90);
    state.set_expected_access_pattern(AccessPattern::SequentialIsh);
    assert_eq!(state.next_step(0, 10), ReadStep::Open(0));
    state.opened(0);
    assert_eq!(state.get_stats().rewinds, 0);
    assert!(state.fetch_active());
    state.fetch_failed();
    assert!(!state.fetch_active());
    assert_eq!(state.next_step(0, 10), ReadStep::Open(0));
}

#[test]
fn probe_needs_partial_content_and_length() {
    assert_eq!(probe_outcome(206, Some(1234)), ProbeOutcome::Ranged(1234));
    assert_eq!(probe_outcome(200, Some(1234)), ProbeOutcome::FallbackNeeded);
    assert_eq!(probe_outcome(206, None), ProbeOutcome::FallbackNeeded);
    assert_eq!(probe_outcome(200, None), ProbeOutcome::FallbackNeeded);
}

#[test]
fn engine_reports_its_length() {
    let state = EngineState::new(77, Some(0), AccessPattern::RandomAccess);
    assert_eq!(state.len(), 77);
    assert!(!state.readahead_too_small());
}

#[test]
fn fetch_status_needs_partial_content_away_from_the_start() {
    assert!(fetch_status_ok(206, 500));
    assert!(fetch_status_ok(200, 0));
    assert!(!fetch_status_ok(200, 500));
    assert!(!fetch_status_ok(404, 0));
}
