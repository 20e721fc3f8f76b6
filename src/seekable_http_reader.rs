//! The decisions of the HTTP range reader: a readahead cache over one forward
//! ranged fetch at a time, with a fetch policy that follows the expected
//! access pattern.
//!
//! The state here makes no requests. A driver asks it for the next step of a
//! read ([`EngineState::next_step`]), performs that step against the server,
//! and reports what came back ([`EngineState::opened`],
//! [`EngineState::fetched`], [`EngineState::discarded`],
//! [`EngineState::fetch_failed`]) until the step is [`ReadStep::Serve`] or
//! [`ReadStep::Empty`].
use vstd::prelude::*;

verus! {

/// How far past the fetch position a read may lie and still be reached by
/// reading and discarding the bytes in between, rather than by a new request.
pub const FORWARD_SKIP_BUDGET: u64 = 1048576;

/// How many bytes a sequential read fetches ahead when no readahead limit is
/// set.
pub const DEFAULT_READAHEAD: usize = 1048576;

/// The access pattern that reads are expected to follow.
#[derive(Clone, Copy, Debug, PartialEq, Eq, Structural)]
pub enum AccessPattern {
    /// Reads jump about: fetch only what is asked for.
    RandomAccess,
    /// Reads mostly move forward: fetch ahead.
    SequentialIsh,
}

/// Counters that only grow.
#[derive(Clone, Copy, Debug, PartialEq, Eq, Structural)]
pub struct Stats {
    /// How many times leading bytes were evicted from the cache.
    pub cache_shrinks: u64,
    /// How many bytes were received from the server.
    pub total_fetched_bytes: u64,
    /// How many times an active fetch was replaced by one elsewhere while
    /// reads were expected to be sequential.
    pub rewinds: u64,
}

/// What the driver does next to serve a read.
#[derive(Clone, Copy, Debug, PartialEq, Eq, Structural)]
pub enum ReadStep {
    /// The read is past the end or asks for nothing: it returns no bytes.
    Empty,
    /// The cache holds the first byte asked for: take the bytes with
    /// [`EngineState::serve`].
    Serve,
    /// Start a ranged fetch at this offset, dropping any active one.
    Open(u64),
    /// Read at most this many bytes from the active fetch into the cache.
    Fetch(usize),
    /// Read at most this many bytes from the active fetch and drop them.
    Discard(usize),
}

/// The result of probing the server before reading.
#[derive(Clone, Copy, Debug, PartialEq, Eq, Structural)]
pub enum ProbeOutcome {
    /// The server honours ranges and reported this total length.
    Ranged(u64),
    /// The server cannot serve ranged reads: download the whole resource.
    FallbackNeeded,
}

/// A probe asked for `Range: bytes=0-`: only a partial-content answer with a
/// length lets the range reader work.
pub open spec fn probe_spec(status: u16, content_length: Option<u64>) -> ProbeOutcome {
    if status == 206 && content_length is Some {
        ProbeOutcome::Ranged(content_length.unwrap())
    } else {
        ProbeOutcome::FallbackNeeded
    }
}

/// Decides from a probe's status and reported length whether the range
/// reader can be used.
pub fn probe_outcome(status: u16, content_length: Option<u64>) -> (r: ProbeOutcome)
    ensures
        r == probe_spec(status, content_length),
{
    match content_length {
        Some(l) => if status == 206 {
            ProbeOutcome::Ranged(l)
        } else {
            ProbeOutcome::FallbackNeeded
        },
        None => ProbeOutcome::FallbackNeeded,
    }
}

/// A ranged fetch at `start_offset` can be read when the server sent partial
/// content, or the whole resource for a fetch from the start.
pub open spec fn fetch_status_spec(status: u16, start_offset: u64) -> bool {
    status == 206 || (status == 200 && start_offset == 0)
}

/// Whether a response with this status serves a fetch at `start_offset`.
pub fn fetch_status_ok(status: u16, start_offset: u64) -> (r: bool)
    ensures
        r == fetch_status_spec(status, start_offset),
{
    status == 206 || (status == 200 && start_offset == 0)
}

/// The most bytes the cache may hold; a limit of zero still keeps one byte.
pub open spec fn window_cap(limit: Option<usize>) -> Option<int> {
    match limit {
        Some(l) => Some(if l == 0 { 1 } else { l as int }),
        None => None,
    }
}

/// `n` cached bytes respect the limit.
pub open spec fn within_cap(limit: Option<usize>, n: int) -> bool {
    window_cap(limit) matches Some(c) ==> n <= c
}

/// How many leading bytes a cache of `n` bytes evicts to respect the limit.
pub open spec fn evicted(limit: Option<usize>, n: int) -> int {
    match window_cap(limit) {
        Some(c) => if n > c { n - c } else { 0 },
        None => 0,
    }
}

/// Adds one, stopping at the largest value.
pub open spec fn bump(x: u64) -> u64 {
    if x < u64::MAX { (x + 1) as u64 } else { x }
}

/// Adds, stopping at the largest value.
pub open spec fn sat_add(x: u64, n: int) -> u64 {
    if x + n <= u64::MAX { (x + n) as u64 } else { u64::MAX }
}

pub open spec fn min_int(a: int, b: int) -> int {
    if a <= b { a } else { b }
}

pub open spec fn max_int(a: int, b: int) -> int {
    if a >= b { a } else { b }
}

/// What an [`EngineState`] holds, as mathematical values.
pub struct CacheView {
    /// The length of the remote resource.
    pub total_len: int,
    /// The most bytes the cache should hold.
    pub limit: Option<usize>,
    /// The offset of the first cached byte.
    pub window_start: int,
    /// The cached bytes, which stand at `window_start` in the resource.
    pub cached: Seq<u8>,
    /// Whether a fetch is active; its next byte is at `fetch_next()`.
    pub fetching: bool,
    /// The expected access pattern.
    pub pattern: AccessPattern,
    /// The counters.
    pub stats: Stats,
}

impl CacheView {
    /// The offset of the next byte the active fetch delivers: the cache
    /// always ends there.
    pub open spec fn fetch_next(self) -> int {
        self.window_start + self.cached.len()
    }

    pub open spec fn wf(self) -> bool {
        &&& 0 <= self.window_start
        &&& self.fetch_next() <= self.total_len
        &&& self.total_len <= u64::MAX
        &&& within_cap(self.limit, self.cached.len() as int)
    }

    /// How many bytes a fetch for a read of `max` bytes at `pos` asks for.
    pub open spec fn fetch_amount(self, pos: int, max: int) -> int {
        let ahead = match self.limit {
            Some(l) => if l == 0 { 1 } else { l as int },
            None => DEFAULT_READAHEAD as int,
        };
        let want = match self.pattern {
            AccessPattern::RandomAccess => max,
            AccessPattern::SequentialIsh => max_int(max, ahead),
        };
        let room = min_int(want, self.total_len - pos);
        match window_cap(self.limit) {
            Some(c) => min_int(room, c),
            None => room,
        }
    }

    /// The next step of a read of at most `max` bytes at `pos`.
    pub open spec fn step_for(self, pos: int, max: int) -> ReadStep {
        if max == 0 || pos >= self.total_len {
            ReadStep::Empty
        } else if self.window_start <= pos < self.fetch_next() {
            ReadStep::Serve
        } else if self.fetching && self.fetch_next() <= pos <= self.fetch_next()
            + FORWARD_SKIP_BUDGET {
            if pos == self.fetch_next() {
                ReadStep::Fetch(self.fetch_amount(pos, max) as usize)
            } else {
                ReadStep::Discard((pos - self.fetch_next()) as usize)
            }
        } else {
            ReadStep::Open(pos as u64)
        }
    }

    /// The cached bytes a read of at most `max` bytes at `pos` receives.
    pub open spec fn served(self, pos: int, max: int) -> Seq<u8> {
        let from = pos - self.window_start;
        self.cached.subrange(from, from + min_int(max, self.fetch_next() - pos))
    }

    /// A fetch at `at` became active, replacing any other; replacing an
    /// active fetch while reads are expected to be sequential is a rewind.
    pub open spec fn opened(self, at: int) -> CacheView {
        CacheView {
            window_start: at,
            cached: Seq::empty(),
            fetching: true,
            stats: Stats {
                rewinds: if self.fetching && self.pattern == AccessPattern::SequentialIsh {
                    bump(self.stats.rewinds)
                } else {
                    self.stats.rewinds
                },
                ..self.stats
            },
            ..self
        }
    }

    /// The bytes of a fetched chunk that the resource can hold past the
    /// fetch position; a server that sends more is cut short.
    pub open spec fn accepted(self, bytes: Seq<u8>) -> Seq<u8> {
        bytes.take(min_int(bytes.len() as int, self.total_len - self.fetch_next()))
    }

    /// A fetched chunk is appended to the cache, and leading bytes are
    /// evicted as far as the limit asks.
    pub open spec fn fetched(self, bytes: Seq<u8>) -> CacheView {
        let taken = self.accepted(bytes);
        let grown = self.cached + taken;
        let drop = evicted(self.limit, grown.len() as int);
        CacheView {
            window_start: self.window_start + drop,
            cached: grown.skip(drop),
            stats: Stats {
                cache_shrinks: if drop > 0 {
                    bump(self.stats.cache_shrinks)
                } else {
                    self.stats.cache_shrinks
                },
                total_fetched_bytes: sat_add(self.stats.total_fetched_bytes, taken.len() as int),
                rewinds: self.stats.rewinds,
            },
            ..self
        }
    }

    /// `n` bytes of the active fetch were read and dropped: the cache
    /// restarts, empty, at the new fetch position.
    pub open spec fn discarded(self, n: int) -> CacheView {
        let k = min_int(n, self.total_len - self.fetch_next());
        CacheView {
            window_start: self.fetch_next() + k,
            cached: Seq::empty(),
            stats: Stats {
                total_fetched_bytes: sat_add(self.stats.total_fetched_bytes, k),
                ..self.stats
            },
            ..self
        }
    }

    /// The active fetch is gone.
    pub open spec fn closed(self) -> CacheView {
        CacheView { fetching: false, ..self }
    }

    /// The next `n` bytes will not be read: a skip beyond the budget drops
    /// the active fetch.
    pub open spec fn skip_expected(self, n: int) -> CacheView {
        if n > FORWARD_SKIP_BUDGET {
            self.closed()
        } else {
            self
        }
    }

    /// The expected pattern becomes `pattern`; a change drops the active
    /// fetch, which was opened for the old one.
    pub open spec fn with_pattern(self, pattern: AccessPattern) -> CacheView {
        CacheView {
            pattern,
            fetching: self.fetching && pattern == self.pattern,
            ..self
        }
    }
}

/// The shared state of an HTTP range reader.
pub struct EngineState {
    len: u64,
    readahead_limit: Option<usize>,
    window_start: u64,
    buffer: Vec<u8>,
    fetching: bool,
    pattern: AccessPattern,
    stats: Stats,
}

impl View for EngineState {
    type V = CacheView;

    closed spec fn view(&self) -> CacheView {
        CacheView {
            total_len: self.len as int,
            limit: self.readahead_limit,
            window_start: self.window_start as int,
            cached: self.buffer@,
            fetching: self.fetching,
            pattern: self.pattern,
            stats: self.stats,
        }
    }
}

impl EngineState {
    /// A state for a resource of `len` bytes, with nothing cached and no
    /// fetch active.
    pub fn new(len: u64, readahead_limit: Option<usize>, pattern: AccessPattern) -> (s: Self)
        ensures
            s@.wf(),
            s@ == (CacheView {
                total_len: len as int,
                limit: readahead_limit,
                window_start: 0,
                cached: Seq::empty(),
                fetching: false,
                pattern,
                stats: Stats { cache_shrinks: 0, total_fetched_bytes: 0, rewinds: 0 },
            }),
    {
        let s = EngineState {
            len,
            readahead_limit,
            window_start: 0,
            buffer: Vec::new(),
            fetching: false,
            pattern,
            stats: Stats { cache_shrinks: 0, total_fetched_bytes: 0, rewinds: 0 },
        };
        assert(s@.cached =~= Seq::<u8>::empty());
        s
    }

    /// The next step of a read of at most `max` bytes at `pos`.
    pub fn next_step(&self, pos: u64, max: usize) -> (r: ReadStep)
        requires
            self@.wf(),
        ensures
            r == self@.step_for(pos as int, max as int),
    {
        let fetch_next: u64 = self.window_start + self.buffer.len() as u64;
        if max == 0 || pos >= self.len {
            ReadStep::Empty
        } else if self.window_start <= pos && pos < fetch_next {
            ReadStep::Serve
        } else if self.fetching && fetch_next <= pos && pos - fetch_next <= FORWARD_SKIP_BUDGET {
            if pos == fetch_next {
                ReadStep::Fetch(self.fetch_amount(pos, max))
            } else {
                ReadStep::Discard((pos - fetch_next) as usize)
            }
        } else {
            ReadStep::Open(pos)
        }
    }

    fn fetch_amount(&self, pos: u64, max: usize) -> (r: usize)
        requires
            self@.wf(),
            pos < self@.total_len,
            max > 0,
        ensures
            r == self@.fetch_amount(pos as int, max as int),
            r > 0,
    {
        let ahead: usize = match self.readahead_limit {
            Some(l) => if l == 0 { 1 } else { l },
            None => DEFAULT_READAHEAD,
        };
        let want: usize = match self.pattern {
            AccessPattern::RandomAccess => max,
            AccessPattern::SequentialIsh => if max >= ahead { max } else { ahead },
        };
        let remaining: u64 = self.len - pos;
        let room: usize = if (want as u64) <= remaining { want } else { remaining as usize };
        match self.readahead_limit {
            Some(l) => {
                let cap: usize = if l == 0 { 1 } else { l };
                if room <= cap { room } else { cap }
            },
            None => room,
        }
    }

    /// The cached bytes for a read of at most `max` bytes at `pos`, where the
    /// next step is [`ReadStep::Serve`].
    pub fn serve(&self, pos: u64, max: usize) -> (r: Vec<u8>)
        requires
            self@.wf(),
            self@.step_for(pos as int, max as int) == ReadStep::Serve,
        ensures
            r@ == self@.served(pos as int, max as int),
            r@.len() > 0,
    {
        let from: usize = (pos - self.window_start) as usize;
        let avail: usize = self.buffer.len() - from;
        let n: usize = if max < avail { max } else { avail };
        let mut out: Vec<u8> = Vec::new();
        let mut i: usize = 0;
        while i < n
            invariant
                from + n <= self.buffer.len(),
                i <= n,
                out@ == self.buffer@.subrange(from as int, from + i),
            decreases n - i,
        {
            out.push(self.buffer[from + i]);
            i = i + 1;
            assert(out@ =~= self.buffer@.subrange(from as int, from + i));
        }
        out
    }

    /// A fetch starting at `at` is now active; any earlier one is gone.
    /// Replacing an active fetch while reads are expected to be sequential
    /// counts as a rewind.
    pub fn opened(&mut self, at: u64)
        requires
            old(self)@.wf(),
            at <= old(self)@.total_len,
        ensures
            final(self)@ == old(self)@.opened(at as int),
            final(self)@.wf(),
    {
        if self.fetching && self.pattern == AccessPattern::SequentialIsh
            && self.stats.rewinds < u64::MAX {
            self.stats.rewinds = self.stats.rewinds + 1;
        }
        self.window_start = at;
        self.buffer = Vec::new();
        self.fetching = true;
        assert(self.buffer@ =~= Seq::<u8>::empty());
    }

    /// The active fetch failed or was closed.
    pub fn fetch_failed(&mut self)
        requires
            old(self)@.wf(),
        ensures
            final(self)@ == old(self)@.closed(),
            final(self)@.wf(),
    {
        self.fetching = false;
    }

    /// The next `n` bytes after the fetch position will not be read. A skip
    /// longer than [`FORWARD_SKIP_BUDGET`] drops the active fetch, so that
    /// the next read starts a new one where it is needed.
    pub fn read_skip_expected(&mut self, n: u64)
        requires
            old(self)@.wf(),
        ensures
            final(self)@ == old(self)@.skip_expected(n as int),
            final(self)@.wf(),
    {
        if n > FORWARD_SKIP_BUDGET {
            self.fetching = false;
        }
    }

    /// Sets the expected access pattern. A change of pattern drops the
    /// active fetch, which was opened for the old one.
    pub fn set_expected_access_pattern(&mut self, pattern: AccessPattern)
        requires
            old(self)@.wf(),
        ensures
            final(self)@ == old(self)@.with_pattern(pattern),
            final(self)@.wf(),
    {
        if pattern != self.pattern {
            self.fetching = false;
        }
        self.pattern = pattern;
    }

    /// The bytes of the active fetch arrived and are appended to the cache;
    /// leading bytes are evicted as far as the limit asks.
    pub fn fetched(&mut self, bytes: Vec<u8>)
        requires
            old(self)@.wf(),
            old(self)@.fetching,
        ensures
            final(self)@ == old(self)@.fetched(bytes@),
            final(self)@.wf(),
    {
        let ghost before = self@;
        let ghost input = bytes@;
        let mut bytes = bytes;
        let fetch_next: u64 = self.window_start + self.buffer.len() as u64;
        let room: u64 = self.len - fetch_next;
        if bytes.len() as u64 > room {
            bytes.truncate(room as usize);
        }
        assert(bytes@ =~= before.accepted(input));
        let n: u64 = bytes.len() as u64;
        self.buffer.append(&mut bytes);
        if self.stats.total_fetched_bytes <= u64::MAX - n {
            self.stats.total_fetched_bytes = self.stats.total_fetched_bytes + n;
        } else {
            self.stats.total_fetched_bytes = u64::MAX;
        }
        if let Some(l) = self.readahead_limit {
            let cap: usize = if l == 0 { 1 } else { l };
            if self.buffer.len() > cap {
                let drop: usize = self.buffer.len() - cap;
                let tail = self.buffer.split_off(drop);
                self.buffer = tail;
                self.window_start = self.window_start + drop as u64;
                if self.stats.cache_shrinks < u64::MAX {
                    self.stats.cache_shrinks = self.stats.cache_shrinks + 1;
                }
            }
        }
        assert(self@.cached =~= before.fetched(input).cached);
    }

    /// `n` bytes of the active fetch were read and dropped: the cache
    /// restarts, empty, at the new fetch position.
    pub fn discarded(&mut self, n: usize)
        requires
            old(self)@.wf(),
            old(self)@.fetching,
        ensures
            final(self)@ == old(self)@.discarded(n as int),
            final(self)@.wf(),
    {
        let fetch_next: u64 = self.window_start + self.buffer.len() as u64;
        let room: u64 = self.len - fetch_next;
        let k: u64 = if n as u64 <= room { n as u64 } else { room };
        self.window_start = fetch_next + k;
        self.buffer = Vec::new();
        if self.stats.total_fetched_bytes <= u64::MAX - k {
            self.stats.total_fetched_bytes = self.stats.total_fetched_bytes + k;
        } else {
            self.stats.total_fetched_bytes = u64::MAX;
        }
        assert(self.buffer@ =~= Seq::<u8>::empty());
    }

    /// The length of the remote resource.
    pub fn len(&self) -> (r: u64)
        ensures
            r == self@.total_len,
    {
        self.len
    }

    /// Whether a fetch is active.
    pub fn fetch_active(&self) -> (r: bool)
        ensures
            r == self@.fetching,
    {
        self.fetching
    }

    /// A snapshot of the counters.
    pub fn get_stats(&self) -> (r: Stats)
        ensures
            r == self@.stats,
    {
        self.stats
    }

    /// Whether evictions showed the readahead limit to be too small.
    pub fn readahead_too_small(&self) -> (r: bool)
        ensures
            r == (self@.stats.cache_shrinks > 0),
    {
        self.stats.cache_shrinks > 0
    }
}

/// One step of a read of at most `max` bytes at `pos`, performed against a
/// server that sends exactly the bytes of `remote` that it is asked for.
pub open spec fn drive_step(v: CacheView, remote: Seq<u8>, pos: int, max: int) -> CacheView {
    match v.step_for(pos, max) {
        ReadStep::Open(at) => v.opened(at as int),
        ReadStep::Fetch(k) => v.fetched(
            remote.subrange(v.fetch_next(), min_int(v.fetch_next() + k, remote.len() as int)),
        ),
        ReadStep::Discard(k) => v.discarded(k as int),
        _ => v,
    }
}

/// Whether the next step of a read opens a fetch.
pub open spec fn opens(v: CacheView, pos: int, max: int) -> int {
    if v.step_for(pos, max) is Open {
        1
    } else {
        0
    }
}

/// The state after a whole read against a server holding `remote`: three
/// steps always bring a read to its bytes (see [`lemma_read_completes`]).
pub open spec fn drive_read(v: CacheView, remote: Seq<u8>, pos: int, max: int) -> CacheView {
    drive_step(drive_step(drive_step(v, remote, pos, max), remote, pos, max), remote, pos, max)
}

/// How many fetches a whole read opens.
pub open spec fn read_opens(v: CacheView, remote: Seq<u8>, pos: int, max: int) -> int {
    let a = drive_step(v, remote, pos, max);
    let b = drive_step(a, remote, pos, max);
    opens(v, pos, max) + opens(a, pos, max) + opens(b, pos, max)
}

/// The state after the reads `reads` (position, most bytes), in order.
pub open spec fn drive_reads(v: CacheView, remote: Seq<u8>, reads: Seq<(int, int)>) -> CacheView
    decreases reads.len(),
{
    if reads.len() == 0 {
        v
    } else {
        drive_reads(drive_read(v, remote, reads[0].0, reads[0].1), remote, reads.drop_first())
    }
}

/// How many fetches the reads `reads`, in order, open.
pub open spec fn reads_opens(v: CacheView, remote: Seq<u8>, reads: Seq<(int, int)>) -> int
    decreases reads.len(),
{
    if reads.len() == 0 {
        0
    } else {
        let w = drive_read(v, remote, reads[0].0, reads[0].1);
        read_opens(v, remote, reads[0].0, reads[0].1) + reads_opens(w, remote, reads.drop_first())
    }
}

/// Positions of reads that each start at or after the one before, by no
/// more than the skip budget, and ask for at least one byte.
pub open spec fn ascending_reads(reads: Seq<(int, int)>) -> bool {
    &&& forall|i: int| 0 <= i < reads.len() ==> 0 <= #[trigger] reads[i].0 <= u64::MAX && 0
        < reads[i].1 <= usize::MAX
    &&& forall|i: int|
        0 <= i < reads.len() - 1 ==> reads[i].0 <= #[trigger] reads[i + 1].0 <= reads[i].0
            + FORWARD_SKIP_BUDGET
}

/// An active fetch that a read at `pos` can reach going forward.
pub open spec fn on_track(v: CacheView, pos: int) -> bool {
    v.fetching && v.window_start <= pos <= v.fetch_next() + FORWARD_SKIP_BUDGET
}

/// A read inside the resource gets its bytes within three steps, opens at
/// most one fetch, and counts a rewind only where it replaced an active fetch
/// that it could not reach going forward.
pub proof fn lemma_read_completes(v: CacheView, remote: Seq<u8>, pos: int, max: int)
    requires
        v.wf(),
        remote.len() == v.total_len,
        0 <= pos < v.total_len,
        0 < max <= usize::MAX,
    ensures
        ({
            let w = drive_read(v, remote, pos, max);
            &&& w.wf()
            &&& w.total_len == v.total_len
            &&& w.step_for(pos, max) == ReadStep::Serve
            &&& w.fetching == (v.fetching || read_opens(v, remote, pos, max) == 1)
            &&& 0 <= read_opens(v, remote, pos, max) <= 1
            &&& on_track(v, pos) ==> read_opens(v, remote, pos, max) == 0
            &&& (on_track(v, pos) || !v.fetching) ==> w.stats.rewinds == v.stats.rewinds
        }),
{
    let a = drive_step(v, remote, pos, max);
    let b = drive_step(a, remote, pos, max);
    lemma_step_facts(v, remote, pos, max);
    lemma_step_facts(a, remote, pos, max);
    lemma_step_facts(b, remote, pos, max);
    match v.step_for(pos, max) {
        ReadStep::Open(_) => {
            assert(a.step_for(pos, max) is Fetch);
            assert(b.step_for(pos, max) == ReadStep::Serve);
        },
        ReadStep::Discard(_) => {
            assert(a.step_for(pos, max) is Fetch);
            assert(b.step_for(pos, max) == ReadStep::Serve);
        },
        ReadStep::Fetch(_) => {
            assert(a.step_for(pos, max) == ReadStep::Serve);
        },
        _ => {},
    }
}

proof fn lemma_step_facts(v: CacheView, remote: Seq<u8>, pos: int, max: int)
    requires
        v.wf(),
        remote.len() == v.total_len,
        0 <= pos < v.total_len,
        0 < max <= usize::MAX,
    ensures
        ({
            let a = drive_step(v, remote, pos, max);
            &&& a.wf()
            &&& a.total_len == v.total_len
            &&& a.pattern == v.pattern
            &&& a.limit == v.limit
            &&& v.fetching ==> a.fetching
            &&& v.step_for(pos, max) == ReadStep::Serve ==> a == v
            &&& v.step_for(pos, max) is Open ==> a.fetching && a.window_start == pos
                && a.cached.len() == 0
            &&& v.step_for(pos, max) is Discard ==> a.fetching && a.window_start == pos
                && a.cached.len() == 0
            &&& v.step_for(pos, max) is Fetch ==> a.fetching && a.window_start <= pos
                < a.fetch_next()
            &&& !(v.step_for(pos, max) is Open) ==> a.stats.rewinds == v.stats.rewinds
            &&& (v.step_for(pos, max) is Open && !v.fetching) ==> a.stats.rewinds
                == v.stats.rewinds
            &&& v.step_for(pos, max) != ReadStep::Empty
        }),
{
    let a = drive_step(v, remote, pos, max);
    match v.step_for(pos, max) {
        ReadStep::Fetch(k) => {
            let fnx = v.fetch_next();
            let chunk = remote.subrange(fnx, min_int(fnx + k, remote.len() as int));
            assert(v.accepted(chunk) =~= chunk);
            let grown = v.cached + chunk;
            let drop = evicted(v.limit, grown.len() as int);
            assert(drop <= v.cached.len());
            assert(a.window_start == v.window_start + drop);
            assert(a.cached =~= grown.skip(drop));
        },
        _ => {},
    }
}

/// Reads in ascending order, each within the skip budget of the one before,
/// open at most one fetch between them, and none where an active fetch can
/// reach the first read going forward; they never count a rewind. From an
/// empty cache with no fetch, such reads open exactly one fetch.
pub proof fn lemma_ascending_reads_open_one_fetch(v: CacheView, remote: Seq<u8>, reads: Seq<(int, int)>)
    requires
        v.wf(),
        remote.len() == v.total_len,
        ascending_reads(reads),
        v.fetching && reads.len() > 0 ==> on_track(v, reads[0].0) || reads[0].0 >= v.total_len,
    ensures
        0 <= reads_opens(v, remote, reads) <= if v.fetching { 0int } else { 1int },
        !v.fetching && v.cached.len() == 0 && reads.len() > 0 && reads[0].0 < v.total_len
            ==> reads_opens(v, remote, reads) == 1,
        drive_reads(v, remote, reads).stats.rewinds == v.stats.rewinds,
        drive_reads(v, remote, reads).wf(),
        drive_reads(v, remote, reads).total_len == v.total_len,
    decreases reads.len(),
{
    if reads.len() > 0 {
        let (pos, max) = reads[0];
        let rest = reads.drop_first();
        assert(ascending_reads(rest)) by {
            assert forall|i: int| 0 <= i < rest.len() implies 0 <= #[trigger] rest[i].0 <= u64::MAX
                && 0 < rest[i].1 <= usize::MAX by {
                assert(rest[i] == reads[i + 1]);
            }
            assert forall|i: int| 0 <= i < rest.len() - 1 implies rest[i].0 <= #[trigger] rest[i
                + 1].0 <= rest[i].0 + FORWARD_SKIP_BUDGET by {
                assert(rest[i] == reads[i + 1]);
                assert(rest[i + 1] == reads[i + 2]);
            }
        }
        assert(0 <= reads[0].0 <= u64::MAX && 0 < reads[0].1 <= usize::MAX);
        let w = drive_read(v, remote, pos, max);
        if pos >= v.total_len {
            assert(v.step_for(pos, max) == ReadStep::Empty);
            assert(w == v);
            assert(read_opens(v, remote, pos, max) == 0);
            if rest.len() > 0 {
                assert(rest[0] == reads[1]);
                assert(reads[0].0 <= reads[1].0);
            }
            lemma_ascending_reads_open_one_fetch(v, remote, rest);
        } else {
            lemma_read_completes(v, remote, pos, max);
            if rest.len() > 0 {
                assert(rest[0] == reads[1]);
                assert(reads[0].0 <= reads[1].0 <= reads[0].0 + FORWARD_SKIP_BUDGET);
            }
            if !v.fetching && read_opens(v, remote, pos, max) == 0 {
                lemma_step_facts(v, remote, pos, max);
                assert(v.step_for(pos, max) == ReadStep::Serve);
                assert(w == v);
            }
            lemma_ascending_reads_open_one_fetch(w, remote, rest);
        }
    }
}

/// The cached bytes are the bytes of `remote` where the window stands.
pub open spec fn cache_matches(v: CacheView, remote: Seq<u8>) -> bool {
    v.cached == remote.subrange(v.window_start, v.fetch_next())
}

/// Against a server that sends the bytes of `remote` it is asked for, the
/// cache only ever holds bytes of `remote` where they stand, and a read
/// inside the resource gets at least one byte, the bytes of `remote` at its
/// position.
pub proof fn lemma_reads_return_remote_bytes(v: CacheView, remote: Seq<u8>, pos: int, max: int)
    requires
        v.wf(),
        remote.len() == v.total_len,
        cache_matches(v, remote),
        0 <= pos < v.total_len,
        0 < max <= usize::MAX,
    ensures
        ({
            let w = drive_read(v, remote, pos, max);
            let got = w.served(pos, max);
            &&& cache_matches(w, remote)
            &&& 0 < got.len() <= max
            &&& got == remote.subrange(pos, pos + got.len())
        }),
{
    let a = drive_step(v, remote, pos, max);
    let b = drive_step(a, remote, pos, max);
    lemma_read_completes(v, remote, pos, max);
    lemma_step_facts(v, remote, pos, max);
    lemma_step_facts(a, remote, pos, max);
    lemma_step_keeps_cache_true(v, remote, pos, max);
    lemma_step_keeps_cache_true(a, remote, pos, max);
    lemma_step_keeps_cache_true(b, remote, pos, max);
    let w = drive_read(v, remote, pos, max);
    let got = w.served(pos, max);
    assert(got =~= remote.subrange(pos, pos + got.len()));
}

proof fn lemma_step_keeps_cache_true(v: CacheView, remote: Seq<u8>, pos: int, max: int)
    requires
        v.wf(),
        remote.len() == v.total_len,
        cache_matches(v, remote),
        0 <= pos < v.total_len,
        0 < max <= usize::MAX,
    ensures
        cache_matches(drive_step(v, remote, pos, max), remote),
{
    let a = drive_step(v, remote, pos, max);
    lemma_step_facts(v, remote, pos, max);
    match v.step_for(pos, max) {
        ReadStep::Fetch(k) => {
            let fnx = v.fetch_next();
            let chunk = remote.subrange(fnx, min_int(fnx + k, remote.len() as int));
            assert(v.accepted(chunk) =~= chunk);
            let grown = v.cached + chunk;
            assert(grown =~= remote.subrange(v.window_start, fnx + chunk.len()));
            let drop = evicted(v.limit, grown.len() as int);
            assert(a.cached =~= remote.subrange(a.window_start, a.fetch_next()));
        },
        ReadStep::Open(_) => {
            assert(a.cached =~= remote.subrange(a.window_start, a.fetch_next()));
        },
        ReadStep::Discard(_) => {
            assert(a.cached =~= remote.subrange(a.window_start, a.fetch_next()));
        },
        _ => {},
    }
}

} // verus!
