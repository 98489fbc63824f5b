//! Rules of the background workers: retrying a committee evaluation with
//! exponential backoff, the decay worker's configuration and paging cursor,
//! and the time-based part of classifying entanglement bonds.
use vstd::prelude::*;
use crate::text::{decimal, push_decimal};
use crate::queue::CognitiveTaskType;
use crate::memory::{MemoryMetadata, with_custom_entry};
use crate::value::{json_text, json_from_str};
use crate::clock::{is_uuid, uuid_parses};
use crate::text::str_eq;

verus! {

/// How an evaluation attempt ended.
#[derive(Debug, Clone, Copy, PartialEq, Eq, Structural)]
pub enum AttemptOutcome {
    /// The evaluator gave a score
    Succeeded,
    /// The evaluator reported an error
    Failed,
    /// The attempt ran out of time
    TimedOut,
}

/// What to do after an attempt.
#[derive(Debug, Clone, Copy, PartialEq, Eq, Structural)]
pub enum RetryAction {
    /// Use the score
    Done,
    /// Sleep this many milliseconds, then try again
    RetryAfter(u64),
    /// Stop: every attempt failed; the number of attempts made
    GiveUpFailed(u32),
    /// Stop: the last attempt timed out; the number of attempts made
    GiveUpTimedOut(u32),
}

/// The first backoff, in milliseconds.
pub const FIRST_BACKOFF_MS: u64 = 100;

/// The largest number of retries whose backoff still fits a `u64`.
pub const MAX_RETRIES_LIMIT: u32 = 57;

/// `100 * 2^k`, the backoff after `k` retries.
pub open spec fn backoff_after(k: nat) -> nat
    decreases k,
{
    if k == 0 {
        FIRST_BACKOFF_MS as nat
    } else {
        2 * backoff_after((k - 1) as nat)
    }
}

/// Retrying of an evaluation: after a failed or timed-out attempt, retry
/// after the current backoff (first 100 ms, doubling each time) while fewer
/// than `max_retries` retries were made; then give up, reporting how many
/// attempts were made.
#[derive(Debug)]
pub struct RetryPolicy {
    attempt: u32,
    backoff_ms: u64,
    max_retries: u32,
}

impl RetryPolicy {
    /// The retries made so far.
    pub closed spec fn retries(&self) -> nat {
        self.attempt as nat
    }

    /// The most retries allowed.
    pub closed spec fn max_retries_spec(&self) -> nat {
        self.max_retries as nat
    }

    /// The backoff before the next retry.
    pub closed spec fn backoff_spec(&self) -> nat {
        self.backoff_ms as nat
    }

    /// Retries stay within the limit and the backoff is `100 * 2^retries`.
    pub closed spec fn wf(&self) -> bool {
        &&& self.max_retries <= MAX_RETRIES_LIMIT
        &&& self.attempt <= self.max_retries
        &&& self.backoff_ms == backoff_after(self.attempt as nat)
    }

    /// A policy allowing `max_retries` retries (so `max_retries + 1`
    /// attempts).
    pub fn new(max_retries: u32) -> (r: RetryPolicy)
        requires
            max_retries <= MAX_RETRIES_LIMIT,
        ensures
            r.wf(),
            r.retries() == 0,
            r.max_retries_spec() == max_retries,
            r.backoff_spec() == FIRST_BACKOFF_MS,
    {
        RetryPolicy { attempt: 0, backoff_ms: FIRST_BACKOFF_MS, max_retries }
    }

    /// What to do after an attempt that ended with `outcome`.
    pub fn after(&mut self, outcome: AttemptOutcome) -> (r: RetryAction)
        requires
            old(self).wf(),
        ensures
            final(self).wf(),
            final(self).max_retries_spec() == old(self).max_retries_spec(),
            outcome == AttemptOutcome::Succeeded ==> r == RetryAction::Done && final(self).retries() == old(self).retries(),
            outcome != AttemptOutcome::Succeeded && old(self).retries() < old(self).max_retries_spec() ==> (
                r == RetryAction::RetryAfter(old(self).backoff_spec() as u64)
                && final(self).retries() == old(self).retries() + 1
                && final(self).backoff_spec() == 2 * old(self).backoff_spec()),
            outcome == AttemptOutcome::Failed && old(self).retries() >= old(self).max_retries_spec() ==> r
                == RetryAction::GiveUpFailed((old(self).retries() + 1) as u32),
            outcome == AttemptOutcome::TimedOut && old(self).retries() >= old(self).max_retries_spec() ==> r
                == RetryAction::GiveUpTimedOut((old(self).retries() + 1) as u32),
            r matches RetryAction::GiveUpFailed(n) ==> n == old(self).max_retries_spec() + 1,
            r matches RetryAction::GiveUpTimedOut(n) ==> n == old(self).max_retries_spec() + 1,
    {
        match outcome {
            AttemptOutcome::Succeeded => RetryAction::Done,
            _ => {
                if self.attempt < self.max_retries {
                    proof {
                        lemma_backoff_fits(self.attempt as nat + 1);
                    }
                    let wait = self.backoff_ms;
                    self.attempt = self.attempt + 1;
                    self.backoff_ms = self.backoff_ms * 2;
                    RetryAction::RetryAfter(wait)
                } else {
                    match outcome {
                        AttemptOutcome::Failed => RetryAction::GiveUpFailed(self.attempt + 1),
                        _ => RetryAction::GiveUpTimedOut(self.attempt + 1),
                    }
                }
            },
        }
    }
}

/// The backoff after at most the allowed number of retries fits a `u64`.
proof fn lemma_backoff_fits(k: nat)
    requires
        k <= MAX_RETRIES_LIMIT,
    ensures
        backoff_after(k) <= u64::MAX,
    decreases k,
{
    lemma_backoff_value(k);
    vstd::arithmetic::power2::lemma2_to64();
    vstd::arithmetic::power2::lemma2_to64_rest();
    if k < MAX_RETRIES_LIMIT {
        vstd::arithmetic::power2::lemma_pow2_strictly_increases(k, MAX_RETRIES_LIMIT as nat);
    }
}

/// The backoff after `k` retries is `100 * 2^k`.
proof fn lemma_backoff_value(k: nat)
    ensures
        backoff_after(k) == 100 * vstd::arithmetic::power2::pow2(k),
    decreases k,
{
    if k > 0 {
        lemma_backoff_value((k - 1) as nat);
        vstd::arithmetic::power2::lemma_pow2_unfold(k);
    } else {
        vstd::arithmetic::power2::lemma2_to64();
    }
}

/// The message for an evaluation that timed out on every attempt.
pub fn timed_out_message(attempts: u32) -> (r: String)
    ensures
        r@ == "Evaluation timed out after "@ + decimal(attempts as nat) + " attempts"@,
{
    let mut s = String::from_str("Evaluation timed out after ");
    push_decimal(&mut s, attempts as u64);
    s.append(" attempts");
    s
}

/// Configuration of the background decay worker.
#[derive(Debug, Clone, Copy, PartialEq, Eq, Structural)]
pub struct DecayWorkerConfig {
    /// Sleep between decay cycles, in seconds
    pub cycle_interval_secs: u64,
    /// Number of memories read per batch
    pub batch_size: usize,
    /// Minimum age of a memory before it decays, in hours
    pub min_age_hours: u64,
}

impl Default for DecayWorkerConfig {
    /// An hour between cycles, batches of 500, decay after one hour.
    fn default() -> (r: DecayWorkerConfig)
        ensures
            r == (DecayWorkerConfig { cycle_interval_secs: 3600, batch_size: 500, min_age_hours: 1 }),
    {
        DecayWorkerConfig { cycle_interval_secs: 3600, batch_size: 500, min_age_hours: 1 }
    }
}

/// The paging cursor after a batch of `batch_len` memories read at
/// `cursor`: an empty batch means the end was reached and the cursor goes
/// back to the start; otherwise it moves on by the batch size (wrapping, as
/// the atomic counter does).
pub open spec fn cursor_after(cursor: usize, batch_len: int, batch_size: usize) -> int {
    if batch_len == 0 {
        0
    } else if cursor + batch_size <= usize::MAX {
        cursor + batch_size
    } else {
        cursor + batch_size - usize::MAX - 1
    }
}

/// The paging cursor after a batch of `batch_len` memories read at
/// `cursor` (see `cursor_after`).
pub fn next_cursor(cursor: usize, batch_len: usize, batch_size: usize) -> (r: usize)
    ensures
        r == cursor_after(cursor, batch_len as int, batch_size),
{
    if batch_len == 0 {
        0
    } else {
        cursor.wrapping_add(batch_size)
    }
}

/// What became of one memory read in a decay batch.
#[derive(Debug, Clone, Copy, PartialEq, Eq, Structural)]
pub enum DecayOutcome {
    /// It could not be read from the batch
    Unreadable,
    /// It was younger than the minimum age and was left alone
    TooFresh,
    /// Decaying or storing it failed
    Failed,
    /// It was decayed and stored
    Decayed,
}

/// The number of memories decayed among `outcomes`.
pub open spec fn decayed_count(outcomes: Seq<DecayOutcome>) -> nat
    decreases outcomes.len(),
{
    if outcomes.len() == 0 {
        0
    } else {
        decayed_count(outcomes.drop_last()) + if outcomes.last() == DecayOutcome::Decayed {
            1nat
        } else {
            0nat
        }
    }
}

/// The end of a decay batch read at `cursor`: the number of memories
/// decayed, which the batch reports, and the cursor for the next batch. An
/// empty batch decays nothing and sends the cursor back to the start.
pub fn finish_decay_batch(cursor: usize, batch_size: usize, outcomes: &Vec<DecayOutcome>) -> (r: (usize, usize))
    ensures
        r.0 == decayed_count(outcomes@),
        r.1 == cursor_after(cursor, outcomes@.len() as int, batch_size),
{
    let n = outcomes.len();
    let mut count: usize = 0;
    let mut i: usize = 0;
    while i < n
        invariant
            n == outcomes@.len(),
            i <= n,
            count == decayed_count(outcomes@.subrange(0, i as int)),
            count <= i,
        decreases n - i,
    {
        proof {
            assert(outcomes@.subrange(0, i + 1).drop_last() =~= outcomes@.subrange(0, i as int));
        }
        if outcomes[i] == DecayOutcome::Decayed {
            count = count + 1;
        }
        i = i + 1;
    }
    assert(outcomes@.subrange(0, n as int) =~= outcomes@);
    (count, next_cursor(cursor, n, batch_size))
}

/// What came of bonding a memory with one candidate during entanglement
/// discovery.
#[derive(Debug, Clone, Copy, PartialEq, Eq, Structural)]
pub enum BondOutcome {
    /// The bond was refused (its strength or target is not valid)
    Refused,
    /// The bond was made, but storing its edge failed
    EdgeFailed,
    /// The bond was made and its edge stored
    EdgeStored,
}

/// What entanglement discovery does after bonding with one candidate,
/// given `bonded` bonds so far whose edges were stored: a stored edge
/// counts and has the memory's signature persisted at once (the `true`);
/// a refused bond or a failed edge counts for nothing and persists nothing.
pub fn after_bond(bonded: usize, outcome: BondOutcome) -> (r: (usize, bool))
    requires
        bonded < usize::MAX,
    ensures
        r == (if outcome == BondOutcome::EdgeStored {
            ((bonded + 1) as usize, true)
        } else {
            (bonded, false)
        }),
{
    match outcome {
        BondOutcome::EdgeStored => (bonded + 1, true),
        _ => (bonded, false),
    }
}

/// Whether entanglement discovery persists the memory's signature once
/// more when the search is done: when any bond had its edge stored.
pub fn persist_after_search(bonded: usize) -> (r: bool)
    ensures
        r == (bonded > 0),
{
    bonded > 0
}

/// Where entanglement discovery for one memory stands.
#[derive(Debug, Clone, Copy, PartialEq, Eq, Structural)]
pub enum DiscoveryState {
    /// Waiting for the memory to be fetched
    Fetching,
    /// The memory is fetched; its signature, embedding and state are being
    /// prepared
    Preparing,
    /// Going through the candidates of the similarity search, with the
    /// number of bonds whose edges were stored
    Searching(usize),
    /// Finished
    Done,
}

/// What the outside work of entanglement discovery reports.
#[derive(Debug, Clone, Copy, PartialEq, Eq, Structural)]
pub enum DiscoveryEvent {
    /// The memory was fetched: whether it was found (a failed fetch counts
    /// as not found)
    Fetched(bool),
    /// Preparation ended: whether the memory has an embedding, and whether
    /// its signature state could be set up
    Prepared(bool, bool),
    /// A candidate was left alone (see `candidate_action`), or could not
    /// be measured
    Skipped,
    /// Bonding with a candidate ended so
    Bonded(BondOutcome),
    /// The similarity search has no more candidates
    SearchEnded,
}

/// What entanglement discovery does next.
#[derive(Debug, Clone, Copy, PartialEq, Eq, Structural)]
pub enum DiscoveryAction {
    /// Load the cached signature, check the embedding and set up the state
    Prepare,
    /// Run the similarity search and take its first candidate
    Search,
    /// Persist the memory's signature, then take the next candidate
    PersistSignature,
    /// Take the next candidate
    Next,
    /// Persist the memory's signature once more, then end
    PersistAndEnd,
    /// End without doing more
    End,
}

/// The next state and action of entanglement discovery after `event`: a
/// missing memory, a memory without an embedding and a state that cannot
/// be set up end the run; skipped candidates change nothing; a bond counts,
/// and has the signature persisted, only when its edge was stored
/// (`after_bond`); at the end the signature is persisted once more when any
/// bond counted. An event that does not belong to the state ends the run.
pub open spec fn discovery_next(state: DiscoveryState, event: DiscoveryEvent) -> (DiscoveryState, DiscoveryAction) {
    match (state, event) {
        (DiscoveryState::Fetching, DiscoveryEvent::Fetched(found)) => if found {
            (DiscoveryState::Preparing, DiscoveryAction::Prepare)
        } else {
            (DiscoveryState::Done, DiscoveryAction::End)
        },
        (DiscoveryState::Preparing, DiscoveryEvent::Prepared(has_embedding, ready)) => if has_embedding && ready {
            (DiscoveryState::Searching(0), DiscoveryAction::Search)
        } else {
            (DiscoveryState::Done, DiscoveryAction::End)
        },
        (DiscoveryState::Searching(n), DiscoveryEvent::Skipped) => (DiscoveryState::Searching(n), DiscoveryAction::Next),
        (DiscoveryState::Searching(n), DiscoveryEvent::Bonded(o)) => if o == BondOutcome::EdgeStored {
            (DiscoveryState::Searching((n + 1) as usize), DiscoveryAction::PersistSignature)
        } else {
            (DiscoveryState::Searching(n), DiscoveryAction::Next)
        },
        (DiscoveryState::Searching(n), DiscoveryEvent::SearchEnded) => if n > 0 {
            (DiscoveryState::Done, DiscoveryAction::PersistAndEnd)
        } else {
            (DiscoveryState::Done, DiscoveryAction::End)
        },
        _ => (DiscoveryState::Done, DiscoveryAction::End),
    }
}

/// One step of entanglement discovery (see `discovery_next`).
pub fn entanglement_step(state: DiscoveryState, event: DiscoveryEvent) -> (r: (DiscoveryState, DiscoveryAction))
    requires
        state matches DiscoveryState::Searching(n) ==> n < usize::MAX,
    ensures
        r == discovery_next(state, event),
{
    match (state, event) {
        (DiscoveryState::Fetching, DiscoveryEvent::Fetched(found)) => if found {
            (DiscoveryState::Preparing, DiscoveryAction::Prepare)
        } else {
            (DiscoveryState::Done, DiscoveryAction::End)
        },
        (DiscoveryState::Preparing, DiscoveryEvent::Prepared(has_embedding, ready)) => if has_embedding && ready {
            (DiscoveryState::Searching(0), DiscoveryAction::Search)
        } else {
            (DiscoveryState::Done, DiscoveryAction::End)
        },
        (DiscoveryState::Searching(n), DiscoveryEvent::Skipped) => (DiscoveryState::Searching(n), DiscoveryAction::Next),
        (DiscoveryState::Searching(n), DiscoveryEvent::Bonded(o)) => {
            let (m, persist) = after_bond(n, o);
            if persist {
                (DiscoveryState::Searching(m), DiscoveryAction::PersistSignature)
            } else {
                (DiscoveryState::Searching(m), DiscoveryAction::Next)
            }
        },
        (DiscoveryState::Searching(n), DiscoveryEvent::SearchEnded) => if persist_after_search(n) {
            (DiscoveryState::Done, DiscoveryAction::PersistAndEnd)
        } else {
            (DiscoveryState::Done, DiscoveryAction::End)
        },
        _ => (DiscoveryState::Done, DiscoveryAction::End),
    }
}

/// Whether a memory `age_secs` seconds old has reached the minimum age of
/// `min_age_hours` hours (an age counts in whole seconds).
pub fn old_enough(age_secs: i64, min_age_hours: u64) -> (r: bool)
    ensures
        r == (age_secs >= min_age_hours * 3600),
{
    if age_secs < 0 || min_age_hours > 2_562_047_788_015_215 {
        return false;
    }
    let need: u64 = min_age_hours * 3600;
    (age_secs as u64) >= need
}

/// Kinds of entanglement bonds between memories.
#[derive(Debug, Clone, Copy, PartialEq, Eq, Structural)]
pub enum EntanglementType {
    /// Created within a second of each other
    Causal,
    /// Created within a minute of each other
    Temporal,
    /// Very strongly similar
    BellPair,
    /// Strongly similar
    Bell,
    /// Similar
    Semantic,
}

/// The signed time from a memory created at `created_ms` to one created at
/// `related_ms`, in milliseconds: positive when the related memory is
/// newer. It is absent when it does not fit an `i64` whose negation also
/// fits.
pub fn temporal_distance_ms(created_ms: i64, related_ms: i64) -> (r: Option<i64>)
    ensures
        (i64::MIN < related_ms - created_ms <= i64::MAX) ==> r == Some((related_ms - created_ms) as i64),
        !(i64::MIN < related_ms - created_ms <= i64::MAX) ==> r is None,
{
    let d = (related_ms as i128) - (created_ms as i128);
    if (i64::MIN as i128) < d && d <= (i64::MAX as i128) {
        Some(d as i64)
    } else {
        None
    }
}

/// The kind of a bond decided by time alone: memories created less than a
/// second apart are causally bonded, less than a minute apart temporally;
/// otherwise (or when the distance is unknown) the kind is decided by
/// similarity.
pub fn bond_kind_by_time(distance_ms: Option<i64>) -> (r: Option<EntanglementType>)
    ensures
        match distance_ms {
            Some(d) => if -1000 < d < 1000 {
                r == Some(EntanglementType::Causal)
            } else if -60_000 < d < 60_000 {
                r == Some(EntanglementType::Temporal)
            } else {
                r is None
            },
            None => r is None,
        },
{
    match distance_ms {
        Some(d) => {
            if -1000 < d && d < 1000 {
                Some(EntanglementType::Causal)
            } else if -60_000 < d && d < 60_000 {
                Some(EntanglementType::Temporal)
            } else {
                None
            }
        },
        None => None,
    }
}


/// What entanglement discovery does with one memory that the similarity
/// search found.
#[derive(Debug, Clone, Copy, PartialEq, Eq, Structural)]
pub enum CandidateAction {
    /// Leave it alone
    Skip,
    /// Bond the two memories; `by_time` is the kind decided by time alone
    /// (the similarity decides otherwise), and `causal` tells whether a
    /// causal edge is recorded first.
    Bond { by_time: Option<EntanglementType>, causal: bool },
}

/// What discovery does with the memory `related_id` found for `source_id`:
/// the memory itself, one without an embedding, one whose similarity is not
/// significant, and one whose ID is not a UUID are left alone; any other is
/// bonded, with a causal edge first when the time between the two is known
/// and the source's ID is a UUID.
pub fn candidate_action(
    source_id: &str,
    related_id: &str,
    has_embedding: bool,
    significant: bool,
    distance_ms: Option<i64>,
) -> (r: CandidateAction)
    ensures
        related_id@ == source_id@ || !has_embedding || !significant || !uuid_parses(related_id@) ==> r
            == CandidateAction::Skip,
        !(related_id@ == source_id@ || !has_embedding || !significant || !uuid_parses(related_id@)) ==> r
            == (CandidateAction::Bond {
                by_time: match distance_ms {
                    Some(d) => if -1000 < d < 1000 {
                        Some(EntanglementType::Causal)
                    } else if -60_000 < d < 60_000 {
                        Some(EntanglementType::Temporal)
                    } else {
                        None
                    },
                    None => None,
                },
                causal: distance_ms is Some && uuid_parses(source_id@),
            }),
{
    if str_eq(related_id, source_id) || !has_embedding || !significant {
        return CandidateAction::Skip;
    }
    if !is_uuid(related_id) {
        return CandidateAction::Skip;
    }
    let by_time = bond_kind_by_time(distance_ms);
    let causal = match distance_ms {
        Some(_) => is_uuid(source_id),
        None => false,
    };
    CandidateAction::Bond { by_time, causal }
}

/// The work a cognitive worker does for a task.
#[derive(Debug)]
pub enum WorkerJob {
    /// Evaluate one memory with the model committee
    Evaluate,
    /// Look for memories entangled with one memory
    DiscoverEntanglement,
    /// Nothing yet: routing is left for later
    Defer,
    /// Evaluate these memories together
    EvaluateBatch(Vec<String>),
}

/// The work to do for a task of the given kind.
pub fn job_for(task_type: CognitiveTaskType) -> (r: WorkerJob)
    ensures
        match task_type {
            CognitiveTaskType::CommitteeEvaluation => r is Evaluate,
            CognitiveTaskType::EntanglementDiscovery => r is DiscoverEntanglement,
            CognitiveTaskType::QuantumRouting => r is Defer,
            CognitiveTaskType::BatchProcessing(ids) => r matches WorkerJob::EvaluateBatch(j) && j@ == ids@,
        },
{
    match task_type {
        CognitiveTaskType::CommitteeEvaluation => WorkerJob::Evaluate,
        CognitiveTaskType::EntanglementDiscovery => WorkerJob::DiscoverEntanglement,
        CognitiveTaskType::QuantumRouting => WorkerJob::Defer,
        CognitiveTaskType::BatchProcessing(ids) => WorkerJob::EvaluateBatch(ids),
    }
}

/// Marks metadata as evaluated by the batch committee at the instant
/// written `evaluated_at` (RFC 3339): the custom entries
/// "evaluation_status", "evaluated_at" and "evaluation_method" are set, in
/// that order. (The score, a float, is set by the caller.)
pub fn record_batch_success(metadata: &mut MemoryMetadata, evaluated_at: &str)
    ensures
        *final(metadata) == (MemoryMetadata {
            custom: with_custom_entry(
                with_custom_entry(
                    with_custom_entry(old(metadata).custom, "evaluation_status"@, json_text("Success"@)),
                    "evaluated_at"@,
                    json_text(evaluated_at@),
                ),
                "evaluation_method"@,
                json_text("batch_committee"@),
            ),
            ..*old(metadata)
        }),
{
    metadata.set_custom("evaluation_status", json_from_str("Success"));
    metadata.set_custom("evaluated_at", json_from_str(evaluated_at));
    metadata.set_custom("evaluation_method", json_from_str("batch_committee"));
}

/// Marks metadata as failed to evaluate with the error `error_message`:
/// the custom entries "evaluation_status" and "error_message" are set, in
/// that order.
pub fn record_evaluation_failure(metadata: &mut MemoryMetadata, error_message: &str)
    ensures
        *final(metadata) == (MemoryMetadata {
            custom: with_custom_entry(
                with_custom_entry(old(metadata).custom, "evaluation_status"@, json_text("Failed"@)),
                "error_message"@,
                json_text(error_message@),
            ),
            ..*old(metadata)
        }),
{
    metadata.set_custom("evaluation_status", json_from_str("Failed"));
    metadata.set_custom("error_message", json_from_str(error_message));
}

} // verus!
