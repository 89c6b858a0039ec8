//! What is asked of the LMCache controller for a background copy, and how its answer
//! is read.

use crate::chunks::copy_tokens;
use crate::offload::{BackgroundOffloadPlanner, OffloadJob, OffloadRpcResult};
use crate::prefetch_hint::{instance_of, names, resolve_instance};
use crate::protocols::WorkerWithDpRank;
use crate::text::{decimal, optional, push_decimal};
use vstd::prelude::*;

verus! {

/// The order to copy a prefix.
#[derive(Debug)]
pub struct OffloadRequest {
    pub event_id: String,
    pub instance_id: String,
    pub tokens: Vec<u32>,
    pub source: String,
    pub target: String,
    pub copy: bool,
    pub max_chunks: usize,
    pub max_bytes: u64,
}

/// Why a copy was not asked for.
#[derive(Debug, Clone, Copy, PartialEq, Eq, Structural)]
pub enum OffloadError {
    /// There is no controller to ask.
    NotConfigured,
    /// It is not known which instance serves the worker.
    NoInstance { worker_id: u64 },
}

impl OffloadError {
    pub open spec fn text(self) -> Seq<char> {
        match self {
            OffloadError::NotConfigured => "LMCache offload client is not configured"@,
            OffloadError::NoInstance { worker_id } => "no LMCache instance mapping for worker "@
                + decimal(worker_id as nat),
        }
    }

    pub fn message(&self) -> (text: String)
        ensures
            text@ == self.text(),
    {
        match self {
            OffloadError::NotConfigured => "LMCache offload client is not configured".to_owned(),
            OffloadError::NoInstance { worker_id } => {
                let mut text: String = "no LMCache instance mapping for worker ".to_owned();
                push_decimal(&mut text, *worker_id);
                text
            },
        }
    }
}

/// What to do for an admitted copy.
#[derive(Debug)]
pub enum OffloadStep {
    /// Only report the copy.
    DryRun,
    /// Send `request` to the controller at `endpoint`.
    Send { endpoint: String, request: OffloadRequest },
    /// The copy cannot be asked for.
    Fail(OffloadError),
}

/// A lower-case hexadecimal digit.
pub open spec fn is_hex_digit(c: char) -> bool {
    '0' <= c <= '9' || 'a' <= c <= 'f'
}

/// The text of a random UUID: groups of lower-case hexadecimal digits, with the digit
/// of the version and that of the variant in their places.
pub open spec fn is_random_uuid(s: Seq<char>) -> bool {
    &&& s.len() == 36
    &&& forall|i: int|
        0 <= i < 36 ==> if i == 8 || i == 13 || i == 18 || i == 23 {
            #[trigger] s[i] == '-'
        } else {
            is_hex_digit(s[i])
        }
    &&& s[14] == '4'
    &&& s[19] == '8' || s[19] == '9' || s[19] == 'a' || s[19] == 'b'
}

/// Calls `uuid::Uuid::new_v4` and writes the result out with its `Display`, which is
/// hyphenated and in lower case. The identifier is drawn at random: only its form is
/// stated, not that two of them differ.
#[verifier::external_body]
fn random_uuid() -> (text: String)
    ensures
        is_random_uuid(text@),
{
    uuid::Uuid::new_v4().to_string()
}

/// A name for a copy that is about to be asked for.
pub fn new_event_id() -> (event_id: String)
    ensures
        exists|uuid: Seq<char>| #[trigger]
            is_random_uuid(uuid) && event_id@ == "background-offload-"@ + uuid,
{
    let mut event_id: String = "background-offload-".to_owned();
    let uuid: String = random_uuid();
    event_id.append(uuid.as_str());
    assert(is_random_uuid(uuid@));
    event_id
}

/// The number of chunks that a copy may take.
pub open spec fn chunk_limit(blocks: nat, max_chunks: nat) -> nat {
    if blocks < max_chunks {
        blocks
    } else {
        max_chunks
    }
}

/// `request` orders the copy `job` from CPU memory to CXL memory.
pub open spec fn orders_copy(
    request: OffloadRequest,
    job: OffloadJob,
    event_id: Seq<char>,
    instance_id: Seq<char>,
    max_chunks: nat,
) -> bool {
    &&& request.event_id@ == event_id
    &&& request.instance_id@ == instance_id
    &&& request.tokens@ == (*job.tokens)@
    &&& request.source@ == "LocalCPUBackend"@
    &&& request.target@ == "CxlBackend"@
    &&& request.copy
    &&& request.max_chunks == chunk_limit(job.key@.len(), max_chunks)
    &&& request.max_bytes == job.reserved_bytes
}

impl BackgroundOffloadPlanner {
    /// The instance that serves `worker` according to the settings.
    pub open spec fn instance_for(self, worker: WorkerWithDpRank) -> Option<Seq<char>> {
        instance_of(
            names(self.config.instance_map@),
            optional(self.config.instance_template),
            worker,
        )
    }

    pub fn instance_id(&self, worker: WorkerWithDpRank) -> (instance: Option<String>)
        ensures
            optional(instance) == self.instance_for(worker),
    {
        resolve_instance(&self.config.instance_map, &self.config.instance_template, worker)
    }

    /// `step` is what to do for `job` if its event is called `event_id`.
    pub open spec fn is_step(self, job: OffloadJob, event_id: Seq<char>, step: OffloadStep) -> bool {
        if self.config.dry_run {
            step is DryRun
        } else if self.config.endpoint is None {
            step == OffloadStep::Fail(OffloadError::NotConfigured)
        } else {
            match self.instance_for(job.owner) {
                Some(instance_id) => step matches OffloadStep::Send { endpoint, request }
                    && self.config.endpoint == Some(endpoint) && orders_copy(
                    request,
                    job,
                    event_id,
                    instance_id,
                    self.config.max_chunks as nat,
                ),
                None => step == OffloadStep::Fail(
                    OffloadError::NoInstance { worker_id: job.owner.worker_id },
                ),
            }
        }
    }

    /// What to do for `job`, with this name for its event.
    pub fn step_for(&self, job: &OffloadJob, event_id: String) -> (step: OffloadStep)
        ensures
            self.is_step(*job, event_id@, step),
    {
        if self.config.dry_run {
            return OffloadStep::DryRun;
        }
        let endpoint: String = match &self.config.endpoint {
            Some(endpoint) => endpoint.clone(),
            None => {
                return OffloadStep::Fail(OffloadError::NotConfigured);
            },
        };
        let instance_id: String = match self.instance_id(job.owner) {
            Some(instance_id) => instance_id,
            None => {
                return OffloadStep::Fail(
                    OffloadError::NoInstance { worker_id: job.owner.worker_id },
                );
            },
        };
        let blocks: usize = job.key.hashes.len();
        let tokens: Vec<u32> = copy_tokens(job.tokens.as_slice(), job.tokens.len());
        assert(tokens@ =~= (*job.tokens)@);
        let request = OffloadRequest {
            event_id,
            instance_id,
            tokens,
            source: "LocalCPUBackend".to_owned(),
            target: "CxlBackend".to_owned(),
            copy: true,
            max_chunks: if blocks < self.config.max_chunks {
                blocks
            } else {
                self.config.max_chunks
            },
            max_bytes: job.reserved_bytes,
        };
        OffloadStep::Send { endpoint, request }
    }

    /// What to do for `job`, with a fresh name for its event.
    pub fn execute(&self, job: &OffloadJob) -> (step: OffloadStep)
        ensures
            exists|uuid: Seq<char>| #[trigger]
                is_random_uuid(uuid) && self.is_step(*job, "background-offload-"@ + uuid, step),
    {
        let event_id: String = new_event_id();
        self.step_for(job, event_id)
    }
}

/// What a worker reports about one rank of a copy.
#[derive(Debug)]
pub struct RankResult {
    pub worker_id: i64,
    pub success: bool,
    pub committed_chunks: u64,
    pub already_present_chunks: u64,
    pub failed_chunks: u64,
    pub bytes_written: u64,
    pub error: Option<String>,
}

/// The answer of the controller.
#[derive(Debug)]
pub enum OffloadResponse {
    OffloadRetMsg {
        event_id: String,
        instance_id: String,
        success: bool,
        rank_results: Vec<RankResult>,
    },
    ErrorMsg { error: String },
}

/// The reports of all ranks taken together.
#[derive(Debug, Clone, Copy, PartialEq, Eq, Structural)]
pub struct RankSummary {
    pub successful_ranks: usize,
    /// Chunks that are in CXL memory now, whether or not they were there before.
    pub committed_chunks: u64,
    pub failed_chunks: u64,
    pub bytes_written: u64,
}

pub open spec fn successes(ranks: Seq<RankResult>) -> nat
    decreases ranks.len(),
{
    if ranks.len() == 0 {
        0
    } else {
        successes(ranks.drop_last()) + if ranks.last().success {
            1nat
        } else {
            0nat
        }
    }
}

pub open spec fn committed_total(ranks: Seq<RankResult>) -> nat
    decreases ranks.len(),
{
    if ranks.len() == 0 {
        0
    } else {
        committed_total(ranks.drop_last()) + ranks.last().committed_chunks as nat
            + ranks.last().already_present_chunks as nat
    }
}

pub open spec fn failed_total(ranks: Seq<RankResult>) -> nat
    decreases ranks.len(),
{
    if ranks.len() == 0 {
        0
    } else {
        failed_total(ranks.drop_last()) + ranks.last().failed_chunks as nat
    }
}

pub open spec fn written_total(ranks: Seq<RankResult>) -> nat
    decreases ranks.len(),
{
    if ranks.len() == 0 {
        0
    } else {
        written_total(ranks.drop_last()) + ranks.last().bytes_written as nat
    }
}

/// All totals fit in 64 bits.
pub open spec fn totals_fit(ranks: Seq<RankResult>) -> bool {
    &&& committed_total(ranks) <= u64::MAX
    &&& failed_total(ranks) <= u64::MAX
    &&& written_total(ranks) <= u64::MAX
}

proof fn lemma_totals_grow(ranks: Seq<RankResult>, k: int)
    requires
        0 <= k <= ranks.len(),
    ensures
        committed_total(ranks.take(k)) <= committed_total(ranks),
        failed_total(ranks.take(k)) <= failed_total(ranks),
        written_total(ranks.take(k)) <= written_total(ranks),
    decreases ranks.len() - k,
{
    if k < ranks.len() {
        assert(ranks.take(k + 1).drop_last() =~= ranks.take(k));
        lemma_totals_grow(ranks, k + 1);
    } else {
        assert(ranks.take(k) =~= ranks);
    }
}

/// Adds the reports up; `None` when a total does not fit in 64 bits.
pub fn summarize(ranks: &Vec<RankResult>) -> (summary: Option<RankSummary>)
    ensures
        summary is Some <==> totals_fit(ranks@),
        summary matches Some(summary) ==> {
            &&& summary.successful_ranks == successes(ranks@)
            &&& summary.committed_chunks == committed_total(ranks@)
            &&& summary.failed_chunks == failed_total(ranks@)
            &&& summary.bytes_written == written_total(ranks@)
        },
{
    let ghost all = ranks@;
    let len: usize = ranks.len();
    let mut successful_ranks: usize = 0;
    let mut committed_chunks: u64 = 0;
    let mut failed_chunks: u64 = 0;
    let mut bytes_written: u64 = 0;
    let mut i: usize = 0;
    assert(all.take(0).len() == 0);
    while i < len
        invariant
            all == ranks@,
            len == all.len(),
            i <= len,
            successful_ranks <= i,
            successful_ranks == successes(all.take(i as int)),
            committed_chunks == committed_total(all.take(i as int)),
            failed_chunks == failed_total(all.take(i as int)),
            bytes_written == written_total(all.take(i as int)),
        decreases len - i,
    {
        let rank: &RankResult = &ranks[i];
        proof {
            assert(all.take(i + 1).drop_last() =~= all.take(i as int));
            assert(all.take(i + 1).last() == all[i as int]);
            lemma_totals_grow(all, i + 1);
        }
        if rank.committed_chunks > u64::MAX - committed_chunks {
            return None;
        }
        let so_far: u64 = committed_chunks + rank.committed_chunks;
        if rank.already_present_chunks > u64::MAX - so_far || rank.failed_chunks > u64::MAX
            - failed_chunks || rank.bytes_written > u64::MAX - bytes_written {
            return None;
        }
        committed_chunks = so_far + rank.already_present_chunks;
        failed_chunks = failed_chunks + rank.failed_chunks;
        bytes_written = bytes_written + rank.bytes_written;
        if rank.success {
            successful_ranks = successful_ranks + 1;
        }
        i += 1;
    }
    assert(all.take(len as int) =~= all);
    Some(RankSummary { successful_ranks, committed_chunks, failed_chunks, bytes_written })
}

/// What an answer says of the copy.
#[derive(Debug)]
pub enum OffloadOutcome {
    /// The copy came to an end.
    Finished { result: OffloadRpcResult, summary: RankSummary },
    /// The controller reports an error.
    Refused { error: String },
    /// The reports add up to more than 64 bits hold.
    TooLarge,
}

/// Reads the answer of the controller.
pub fn read_response(response: OffloadResponse) -> (outcome: OffloadOutcome)
    ensures
        match response {
            OffloadResponse::OffloadRetMsg { success, rank_results, .. } => if totals_fit(
                rank_results@,
            ) {
                outcome matches OffloadOutcome::Finished { result, summary } && result.success
                    == success && result.bytes_written == written_total(rank_results@)
                    && summary.successful_ranks == successes(rank_results@)
                    && summary.committed_chunks == committed_total(rank_results@)
                    && summary.failed_chunks == failed_total(rank_results@)
                    && summary.bytes_written == written_total(rank_results@)
            } else {
                outcome is TooLarge
            },
            OffloadResponse::ErrorMsg { error } => outcome == (OffloadOutcome::Refused { error }),
        },
{
    match response {
        OffloadResponse::OffloadRetMsg { event_id: _, instance_id: _, success, rank_results } => {
            match summarize(&rank_results) {
                Some(summary) => {
                    let bytes_written: u64 = summary.bytes_written;
                    OffloadOutcome::Finished {
                        result: OffloadRpcResult { success, bytes_written },
                        summary,
                    }
                },
                None => OffloadOutcome::TooLarge,
            }
        },
        OffloadResponse::ErrorMsg { error } => OffloadOutcome::Refused { error },
    }
}

} // verus!
