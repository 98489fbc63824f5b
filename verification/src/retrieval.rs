//! Retrieval rules: the methods by which a memory is found, what search does
//! with memories whose evaluation is pending, time windows, the kinds that a
//! richer memory model maps onto, and the gathering of candidates for
//! time-based retrieval.
use vstd::prelude::*;
use crate::types::MemoryTypeEnum;

verus! {

/// Retrieval method used to find a memory.
#[derive(Debug, Clone, Copy, PartialEq, Eq, Structural)]
pub enum RetrievalMethod {
    VectorSimilarity,
    Semantic,
    Temporal,
    Keyword,
    Hybrid,
}

/// Strategy for memories whose cognitive evaluation is still pending.
#[derive(Debug, Clone, Copy, PartialEq, Eq, Structural)]
pub enum LazyEvalStrategy {
    /// Wait for background processing to complete (polls with a timeout)
    WaitForCompletion,
    /// Return at once with partial data (the default)
    ReturnPartial,
    /// Evaluate at once and wait (bypasses the queue)
    TriggerAndWait,
}

impl Default for LazyEvalStrategy {
    /// `ReturnPartial`.
    fn default() -> (r: LazyEvalStrategy)
        ensures
            r == LazyEvalStrategy::ReturnPartial,
    {
        LazyEvalStrategy::ReturnPartial
    }
}

/// What search does with a memory found by a query.
#[derive(Debug, Clone, Copy, PartialEq, Eq, Structural)]
pub enum PendingAction {
    /// Return it as it is
    Keep,
    /// Poll the store until its evaluation settles or the wait times out
    Poll,
    /// Use a cached score, or evaluate it now
    Evaluate,
}

/// What search does with a memory under `strategy`: only a memory whose
/// evaluation is pending is polled for or evaluated.
pub fn pending_action(strategy: LazyEvalStrategy, pending: bool) -> (r: PendingAction)
    ensures
        !pending ==> r == PendingAction::Keep,
        pending ==> r == match strategy {
            LazyEvalStrategy::WaitForCompletion => PendingAction::Poll,
            LazyEvalStrategy::ReturnPartial => PendingAction::Keep,
            LazyEvalStrategy::TriggerAndWait => PendingAction::Evaluate,
        },
{
    if !pending {
        return PendingAction::Keep;
    }
    match strategy {
        LazyEvalStrategy::WaitForCompletion => PendingAction::Poll,
        LazyEvalStrategy::ReturnPartial => PendingAction::Keep,
        LazyEvalStrategy::TriggerAndWait => PendingAction::Evaluate,
    }
}

/// How long search waits for a pending evaluation, in milliseconds.
pub const EVALUATION_WAIT_MS: u64 = 5000;

/// How long search sleeps between two polls, in milliseconds.
pub const EVALUATION_POLL_MS: u64 = 100;

/// The next step of waiting for a pending evaluation.
#[derive(Debug, Clone, Copy, PartialEq, Eq, Structural)]
pub enum PollStep {
    /// The evaluation settled: use the memory just read
    Settled,
    /// Sleep this many milliseconds, then read again
    Sleep(u64),
    /// Stop waiting and keep the memory as it was
    GiveUp,
}

/// The step after a read: `settled` when the read found the memory with
/// its evaluation no longer pending; the wait is over once `elapsed_ms`
/// reaches the timeout.
pub fn poll_step(settled: bool, elapsed_ms: u64) -> (r: PollStep)
    ensures
        settled ==> r == PollStep::Settled,
        !settled && elapsed_ms >= EVALUATION_WAIT_MS ==> r == PollStep::GiveUp,
        !settled && elapsed_ms < EVALUATION_WAIT_MS ==> r == PollStep::Sleep(EVALUATION_POLL_MS),
{
    if settled {
        PollStep::Settled
    } else if elapsed_ms >= EVALUATION_WAIT_MS {
        PollStep::GiveUp
    } else {
        PollStep::Sleep(EVALUATION_POLL_MS)
    }
}

/// A window of creation times in milliseconds since the Unix epoch: from
/// `start` (included) to `end` (excluded); a missing bound does not limit.
#[derive(Debug, Clone, Copy, PartialEq, Eq, Structural)]
pub struct TimeRange {
    pub start: Option<i64>,
    pub end: Option<i64>,
}

/// Whether `t` lies in the window.
pub open spec fn in_range(w: TimeRange, t: int) -> bool {
    &&& (w.start matches Some(s) ==> s <= t)
    &&& (w.end matches Some(e) ==> t < e)
}

/// Thirty days, in milliseconds.
pub const THIRTY_DAYS_MS: i64 = 2_592_000_000;

impl TimeRange {
    /// Whether `t` lies in the window.
    pub fn contains(&self, t: i64) -> (r: bool)
        ensures
            r == in_range(*self, t as int),
    {
        let after_start = match self.start {
            Some(s) => s <= t,
            None => true,
        };
        let before_end = match self.end {
            Some(e) => t < e,
            None => true,
        };
        after_start && before_end
    }

    /// The thirty days up to `now_ms`.
    pub fn last_thirty_days(now_ms: i64) -> (r: TimeRange)
        requires
            now_ms >= i64::MIN + THIRTY_DAYS_MS,
        ensures
            r == (TimeRange { start: Some((now_ms - THIRTY_DAYS_MS) as i64), end: Some(now_ms) }),
    {
        TimeRange { start: Some(now_ms - THIRTY_DAYS_MS), end: Some(now_ms) }
    }

    /// The window a search uses: `requested`, or the thirty days up to
    /// `now_ms` when none was asked for.
    pub fn or_last_thirty_days(requested: Option<TimeRange>, now_ms: i64) -> (r: TimeRange)
        requires
            now_ms >= i64::MIN + THIRTY_DAYS_MS,
        ensures
            requested matches Some(w) ==> r == w,
            requested is None ==> r == (TimeRange { start: Some((now_ms - THIRTY_DAYS_MS) as i64), end: Some(now_ms) }),
    {
        match requested {
            Some(w) => w,
            None => TimeRange::last_thirty_days(now_ms),
        }
    }
}

/// The start of the whole second that holds `ms` (for `ms >= 0`).
pub open spec fn whole_second(ms: int) -> int {
    (ms / 1000) * 1000
}

/// Whether search's filter admits a memory created at `created_ms`: the
/// window's bounds are taken in whole seconds (a bound's milliseconds are
/// dropped), the start included and the end excluded. Bounds before the
/// Unix epoch cannot be used.
pub fn search_window_admits(w: TimeRange, created_ms: i64) -> (r: bool)
    requires
        w.start matches Some(s) ==> s >= 0,
        w.end matches Some(e) ==> e >= 0,
    ensures
        r == ((w.start matches Some(s) ==> whole_second(s as int) <= created_ms)
            && (w.end matches Some(e) ==> created_ms < whole_second(e as int))),
{
    let after_start = match w.start {
        Some(s) => (s / 1000) * 1000 <= created_ms,
        None => true,
    };
    let before_end = match w.end {
        Some(e) => created_ms < (e / 1000) * 1000,
        None => true,
    };
    after_start && before_end
}

/// Whether `kinds` lists `kind`.
pub fn kind_allowed(kinds: &Vec<MemoryTypeEnum>, kind: MemoryTypeEnum) -> (r: bool)
    ensures
        r == kinds@.contains(kind),
{
    let n = kinds.len();
    let mut i: usize = 0;
    while i < n
        invariant
            n == kinds@.len(),
            i <= n,
            forall|j: int| 0 <= j < i ==> kinds@[j] != kind,
        decreases n - i,
    {
        if kinds[i] == kind {
            assert(kinds@[i as int] == kind);
            return true;
        }
        i = i + 1;
    }
    false
}

/// Whether search's filter admits a memory of the finer kind `kind`,
/// created at `created_ms`: its store kind must be among `kinds` when kinds
/// are asked for, and its creation time in `window` (see
/// `search_window_admits`) when a window is asked for.
pub fn search_admits(
    kinds: Option<&Vec<MemoryTypeEnum>>,
    window: Option<TimeRange>,
    kind: DomainMemoryType,
    created_ms: i64,
) -> (r: bool)
    requires
        window matches Some(w) ==> (w.start matches Some(s) ==> s >= 0) && (w.end matches Some(e) ==> e >= 0),
    ensures
        r == ((kinds matches Some(ks) ==> ks@.contains(store_kind(kind))) && (window matches Some(w) ==> (
        w.start matches Some(s) ==> whole_second(s as int) <= created_ms) && (w.end matches Some(e) ==> created_ms
            < whole_second(e as int)))),
{
    match kinds {
        Some(ks) => {
            if !kind_allowed(ks, kind.to_store_kind()) {
                return false;
            }
        },
        None => {},
    }
    match window {
        Some(w) => search_window_admits(w, created_ms),
        None => true,
    }
}

/// The kinds that time-based retrieval falls back on when none are asked
/// for: episodic, semantic and procedural.
pub fn default_recall_kinds() -> (r: Vec<MemoryTypeEnum>)
    ensures
        r@ == seq![MemoryTypeEnum::Episodic, MemoryTypeEnum::Semantic, MemoryTypeEnum::Procedural],
{
    let mut r: Vec<MemoryTypeEnum> = Vec::new();
    r.push(MemoryTypeEnum::Episodic);
    r.push(MemoryTypeEnum::Semantic);
    r.push(MemoryTypeEnum::Procedural);
    r
}

/// The finer kinds of the application's memory model.
#[derive(Debug, Clone, Copy, PartialEq, Eq, Structural)]
pub enum DomainMemoryType {
    Semantic,
    Episodic,
    Procedural,
    Working,
    LongTerm,
    Fact,
    Episode,
    Declarative,
    Implicit,
    Explicit,
    Contextual,
    Temporal,
    Spatial,
    Associative,
    Emotional,
}

/// The store's kind closest to a finer kind.
pub open spec fn store_kind(d: DomainMemoryType) -> MemoryTypeEnum {
    match d {
        DomainMemoryType::Semantic => MemoryTypeEnum::Semantic,
        DomainMemoryType::Episodic => MemoryTypeEnum::Episodic,
        DomainMemoryType::Procedural => MemoryTypeEnum::Procedural,
        DomainMemoryType::Working => MemoryTypeEnum::Working,
        DomainMemoryType::LongTerm => MemoryTypeEnum::LongTerm,
        DomainMemoryType::Fact => MemoryTypeEnum::Semantic,
        DomainMemoryType::Episode => MemoryTypeEnum::Episodic,
        DomainMemoryType::Declarative => MemoryTypeEnum::Semantic,
        DomainMemoryType::Implicit => MemoryTypeEnum::Procedural,
        DomainMemoryType::Explicit => MemoryTypeEnum::Semantic,
        DomainMemoryType::Contextual => MemoryTypeEnum::Semantic,
        DomainMemoryType::Temporal => MemoryTypeEnum::Episodic,
        DomainMemoryType::Spatial => MemoryTypeEnum::Episodic,
        DomainMemoryType::Associative => MemoryTypeEnum::Semantic,
        DomainMemoryType::Emotional => MemoryTypeEnum::Episodic,
    }
}

/// Every finer kind is stored under one of the store's kinds: the five base
/// kinds under themselves; facts and declarative, explicit, contextual and
/// associative memories as semantic; episodes and temporal, spatial and
/// emotional memories as episodic; implicit memories as procedural.
pub proof fn lemma_store_kind_groups(d: DomainMemoryType)
    ensures
        (store_kind(d) == MemoryTypeEnum::Semantic) == (d is Semantic || d is Fact || d is Declarative || d is Explicit
            || d is Contextual || d is Associative),
        (store_kind(d) == MemoryTypeEnum::Episodic) == (d is Episodic || d is Episode || d is Temporal || d is Spatial
            || d is Emotional),
        (store_kind(d) == MemoryTypeEnum::Procedural) == (d is Procedural || d is Implicit),
        (store_kind(d) == MemoryTypeEnum::Working) == (d is Working),
        (store_kind(d) == MemoryTypeEnum::LongTerm) == (d is LongTerm),
{
}

/// A search that asks for some kinds admits a memory exactly when its
/// finer kind is stored under one of them; so a semantic search admits
/// facts and declarative, explicit, contextual and associative memories,
/// and no episodic or procedural one.
pub proof fn lemma_semantic_search_kinds(d: DomainMemoryType)
    ensures
        seq![MemoryTypeEnum::Semantic].contains(store_kind(d)) == (d is Semantic || d is Fact || d is Declarative
            || d is Explicit || d is Contextual || d is Associative),
{
    lemma_store_kind_groups(d);
    if seq![MemoryTypeEnum::Semantic].contains(store_kind(d)) {
        let j = choose|j: int| 0 <= j < 1 && seq![MemoryTypeEnum::Semantic][j] == store_kind(d);
    } else {
        assert(seq![MemoryTypeEnum::Semantic][0] == MemoryTypeEnum::Semantic);
    }
}

/// The finer kind that stands for a store kind.
pub open spec fn domain_kind(t: MemoryTypeEnum) -> DomainMemoryType {
    match t {
        MemoryTypeEnum::Semantic => DomainMemoryType::Semantic,
        MemoryTypeEnum::Episodic => DomainMemoryType::Episodic,
        MemoryTypeEnum::Procedural => DomainMemoryType::Procedural,
        MemoryTypeEnum::Working => DomainMemoryType::Working,
        MemoryTypeEnum::LongTerm => DomainMemoryType::LongTerm,
    }
}

impl DomainMemoryType {
    /// The store's kind closest to this one.
    pub fn to_store_kind(&self) -> (r: MemoryTypeEnum)
        ensures
            r == store_kind(*self),
    {
        match self {
            DomainMemoryType::Semantic => MemoryTypeEnum::Semantic,
            DomainMemoryType::Episodic => MemoryTypeEnum::Episodic,
            DomainMemoryType::Procedural => MemoryTypeEnum::Procedural,
            DomainMemoryType::Working => MemoryTypeEnum::Working,
            DomainMemoryType::LongTerm => MemoryTypeEnum::LongTerm,
            DomainMemoryType::Fact => MemoryTypeEnum::Semantic,
            DomainMemoryType::Episode => MemoryTypeEnum::Episodic,
            DomainMemoryType::Declarative => MemoryTypeEnum::Semantic,
            DomainMemoryType::Implicit => MemoryTypeEnum::Procedural,
            DomainMemoryType::Explicit => MemoryTypeEnum::Semantic,
            DomainMemoryType::Contextual => MemoryTypeEnum::Semantic,
            DomainMemoryType::Temporal => MemoryTypeEnum::Episodic,
            DomainMemoryType::Spatial => MemoryTypeEnum::Episodic,
            DomainMemoryType::Associative => MemoryTypeEnum::Semantic,
            DomainMemoryType::Emotional => MemoryTypeEnum::Episodic,
        }
    }

    /// The finer kind that stands for the store kind `t`.
    pub fn from_store_kind(t: MemoryTypeEnum) -> (r: DomainMemoryType)
        ensures
            r == domain_kind(t),
    {
        match t {
            MemoryTypeEnum::Semantic => DomainMemoryType::Semantic,
            MemoryTypeEnum::Episodic => DomainMemoryType::Episodic,
            MemoryTypeEnum::Procedural => DomainMemoryType::Procedural,
            MemoryTypeEnum::Working => DomainMemoryType::Working,
            MemoryTypeEnum::LongTerm => DomainMemoryType::LongTerm,
        }
    }
}

/// Taking a store kind to the finer model and back gives it back.
pub proof fn lemma_store_kind_roundtrip(t: MemoryTypeEnum)
    ensures
        store_kind(domain_kind(t)) == t,
{
}

/// The phase of gathering candidates for time-based retrieval.
#[derive(Debug, Clone, Copy, PartialEq, Eq, Structural)]
pub enum GatherPhase {
    /// Reading the results of the content search
    Content,
    /// Reading the memories of one kind
    Kind,
    /// Between phases
    Idle,
}

/// Gathering of candidates for time-based retrieval. Candidates come from
/// a content search (when there is a query), then, when fewer than `limit`
/// were found, from the memories of each kind in turn; only candidates
/// created in the window are kept. The content search stops once three
/// times `limit` candidates are kept; each kind stops once it has given as
/// many as were still missing before the kinds were read; the kinds stop
/// once three times `limit` are held in all.
#[derive(Debug)]
pub struct CandidateGathering {
    limit: usize,
    window: TimeRange,
    total: usize,
    count: usize,
    budget: usize,
    phase: GatherPhase,
}

impl CandidateGathering {
    /// The number of candidates wanted.
    pub closed spec fn limit_spec(&self) -> nat {
        self.limit as nat
    }

    /// How many candidates are held in all.
    pub closed spec fn total_spec(&self) -> nat {
        self.total as nat
    }

    /// How many the current phase has kept.
    pub closed spec fn count_spec(&self) -> nat {
        self.count as nat
    }

    /// How many the current phase may keep before it stops.
    pub closed spec fn budget_spec(&self) -> nat {
        self.budget as nat
    }

    /// The current phase.
    pub closed spec fn phase_spec(&self) -> GatherPhase {
        self.phase
    }

    /// The window candidates must be created in.
    pub closed spec fn window_spec(&self) -> TimeRange {
        self.window
    }

    /// Counts stay within what the phases allow.
    pub closed spec fn wf(&self) -> bool {
        &&& self.limit * 3 <= usize::MAX
        &&& self.count <= self.total
        &&& self.total <= usize::MAX - 1
    }

    /// A gathering for `limit` results in `window`; the content phase is
    /// open.
    pub fn new(limit: usize, window: TimeRange) -> (r: CandidateGathering)
        requires
            limit * 3 <= usize::MAX,
        ensures
            r.wf(),
            r.limit_spec() == limit,
            r.window_spec() == window,
            r.total_spec() == 0,
            r.count_spec() == 0,
            r.budget_spec() == 3 * limit,
            r.phase_spec() == GatherPhase::Content,
    {
        CandidateGathering { limit, window, total: 0, count: 0, budget: limit * 3, phase: GatherPhase::Content }
    }

    /// Offers a candidate created at `created_ms` to the open phase; it is
    /// kept when created in the window.
    pub fn offer(&mut self, created_ms: i64) -> (keep: bool)
        requires
            old(self).wf(),
            old(self).phase_spec() != GatherPhase::Idle,
            old(self).total_spec() < usize::MAX - 1,
        ensures
            final(self).wf(),
            keep == in_range(old(self).window_spec(), created_ms as int),
            final(self).total_spec() == old(self).total_spec() + if keep { 1nat } else { 0nat },
            final(self).count_spec() == old(self).count_spec() + if keep { 1nat } else { 0nat },
            final(self).limit_spec() == old(self).limit_spec(),
            final(self).budget_spec() == old(self).budget_spec(),
            final(self).phase_spec() == old(self).phase_spec(),
            final(self).window_spec() == old(self).window_spec(),
    {
        let keep = self.window.contains(created_ms);
        if keep {
            self.total = self.total + 1;
            self.count = self.count + 1;
        }
        keep
    }

    /// Whether the open phase has kept all it may: then no more
    /// candidates are read from its source.
    pub fn phase_full(&self) -> (r: bool)
        ensures
            r == (self.count_spec() >= self.budget_spec()),
    {
        self.count >= self.budget
    }

    /// Closes the content phase (or skips it, when there is no query):
    /// returns whether the kinds are to be read, that is whether fewer than
    /// `limit` candidates are held; each kind may then give as many as are
    /// missing to three times `limit`.
    pub fn finish_content(&mut self) -> (read_kinds: bool)
        requires
            old(self).wf(),
        ensures
            final(self).wf(),
            read_kinds == (old(self).total_spec() < old(self).limit_spec()),
            read_kinds ==> final(self).budget_spec() == 3 * old(self).limit_spec() - old(self).total_spec(),
            final(self).total_spec() == old(self).total_spec(),
            final(self).count_spec() == 0,
            final(self).limit_spec() == old(self).limit_spec(),
            final(self).window_spec() == old(self).window_spec(),
            final(self).phase_spec() == GatherPhase::Idle,
    {
        self.count = 0;
        self.phase = GatherPhase::Idle;
        if self.total < self.limit {
            self.budget = self.limit * 3 - self.total;
            true
        } else {
            false
        }
    }

    /// Opens the phase of one kind.
    pub fn start_kind(&mut self)
        requires
            old(self).wf(),
        ensures
            final(self).wf(),
            final(self).phase_spec() == GatherPhase::Kind,
            final(self).count_spec() == 0,
            final(self).total_spec() == old(self).total_spec(),
            final(self).budget_spec() == old(self).budget_spec(),
            final(self).limit_spec() == old(self).limit_spec(),
            final(self).window_spec() == old(self).window_spec(),
    {
        self.count = 0;
        self.phase = GatherPhase::Kind;
    }

    /// Closes the phase of one kind: returns whether the next kind is to be
    /// read, that is whether fewer than three times `limit` are held.
    pub fn finish_kind(&mut self) -> (more: bool)
        requires
            old(self).wf(),
        ensures
            final(self).wf(),
            more == (old(self).total_spec() < 3 * old(self).limit_spec()),
            final(self).phase_spec() == GatherPhase::Idle,
            final(self).count_spec() == 0,
            final(self).total_spec() == old(self).total_spec(),
            final(self).budget_spec() == old(self).budget_spec(),
            final(self).limit_spec() == old(self).limit_spec(),
            final(self).window_spec() == old(self).window_spec(),
    {
        self.count = 0;
        self.phase = GatherPhase::Idle;
        self.total < self.limit * 3
    }

    /// How many candidates are held in all.
    pub fn total(&self) -> (r: usize)
        ensures
            r == self.total_spec(),
    {
        self.total
    }
}

} // verus!
