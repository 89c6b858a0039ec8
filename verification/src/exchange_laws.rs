//! What the exchange with the cache controller promises.

use crate::offload::{BackgroundOffloadPlanner, OffloadJob};
use crate::offload_exchange::{
    committed_total, failed_total, is_random_uuid, new_event_id, read_response, successes,
    summarize, written_total, OffloadError, OffloadOutcome, OffloadResponse, OffloadStep,
    RankResult, RankSummary,
};
use crate::text::{decimal, replaced};
use vstd::prelude::*;

verus! {

/// A dry run asks for nothing. Otherwise a copy is asked for if it is known where the
/// controller and the instance of the owner are, and the first of the two that is not known
/// is reported. What is asked for is a copy of the job's tokens from CPU to CXL memory, of
/// no more chunks than the prefix has blocks or the settings allow, and of no more bytes
/// than were reserved.
pub proof fn law_copies_are_asked_for_as_planned(
    planner: &BackgroundOffloadPlanner,
    job: &OffloadJob,
    event_id: String,
    step: OffloadStep,
)
    requires
        call_ensures(BackgroundOffloadPlanner::step_for, (planner, job, event_id), step),
    ensures
        ({
            let config = planner.config;
            let listed = config.instance_map@.contains_key(job.owner.worker_id);
            let named = listed || config.instance_template is Some;
            &&& config.dry_run <==> step is DryRun
            &&& !config.dry_run && config.endpoint is None ==> step == OffloadStep::Fail(
                OffloadError::NotConfigured,
            )
            &&& !config.dry_run && config.endpoint is Some && !named ==> step == OffloadStep::Fail(
                OffloadError::NoInstance { worker_id: job.owner.worker_id },
            )
            &&& step is Send <==> !config.dry_run && config.endpoint is Some && named
            &&& step matches OffloadStep::Send { endpoint, request } ==> {
                &&& config.endpoint == Some(endpoint)
                &&& request.event_id@ == event_id@
                &&& listed ==> request.instance_id@ == config.instance_map@[job.owner.worker_id]@
                &&& !listed ==> request.instance_id@ == replaced(
                    replaced(
                        config.instance_template->0@,
                        "{worker_id}"@,
                        decimal(job.owner.worker_id as nat),
                    ),
                    "{dp_rank}"@,
                    decimal(job.owner.dp_rank as nat),
                )
                &&& request.tokens@ == (*job.tokens)@
                &&& request.source@ == "LocalCPUBackend"@
                &&& request.target@ == "CxlBackend"@
                &&& request.copy
                &&& request.max_chunks <= job.key.hashes@.len()
                &&& request.max_chunks <= config.max_chunks
                &&& request.max_chunks == job.key.hashes@.len() || request.max_chunks
                    == config.max_chunks
                &&& request.max_bytes == job.reserved_bytes
            }
        }),
{
}

/// The same holds of the step that is taken under a fresh name.
pub proof fn law_executed_copies_are_as_planned(
    planner: &BackgroundOffloadPlanner,
    job: &OffloadJob,
    step: OffloadStep,
)
    requires
        call_ensures(BackgroundOffloadPlanner::execute, (planner, job), step),
    ensures
        ({
            let config = planner.config;
            let listed = config.instance_map@.contains_key(job.owner.worker_id);
            let named = listed || config.instance_template is Some;
            &&& config.dry_run <==> step is DryRun
            &&& !config.dry_run && config.endpoint is None ==> step == OffloadStep::Fail(
                OffloadError::NotConfigured,
            )
            &&& !config.dry_run && config.endpoint is Some && !named ==> step == OffloadStep::Fail(
                OffloadError::NoInstance { worker_id: job.owner.worker_id },
            )
            &&& step is Send <==> !config.dry_run && config.endpoint is Some && named
            &&& step matches OffloadStep::Send { endpoint, request } ==> {
                &&& config.endpoint == Some(endpoint)
                &&& request.event_id@.len() == 19 + 36
                &&& listed ==> request.instance_id@ == config.instance_map@[job.owner.worker_id]@
                &&& request.tokens@ == (*job.tokens)@
                &&& request.source@ == "LocalCPUBackend"@
                &&& request.target@ == "CxlBackend"@
                &&& request.copy
                &&& request.max_chunks <= job.key.hashes@.len()
                &&& request.max_chunks <= config.max_chunks
                &&& request.max_chunks == job.key.hashes@.len() || request.max_chunks
                    == config.max_chunks
                &&& request.max_bytes == job.reserved_bytes
            }
        }),
{
    reveal_strlit("background-offload-");
}

/// The reports of the ranks are added up: how many succeeded, how many chunks are in CXL
/// memory now, how many failed, and how many bytes were written.
pub proof fn law_reports_add_up(ranks: Seq<RankResult>, more: Seq<RankResult>)
    ensures
        successes(ranks + more) == successes(ranks) + successes(more),
        committed_total(ranks + more) == committed_total(ranks) + committed_total(more),
        failed_total(ranks + more) == failed_total(ranks) + failed_total(more),
        written_total(ranks + more) == written_total(ranks) + written_total(more),
        ranks.len() == 1 ==> {
            &&& successes(ranks) == if ranks[0].success {
                1nat
            } else {
                0nat
            }
            &&& committed_total(ranks) == ranks[0].committed_chunks
                + ranks[0].already_present_chunks
            &&& failed_total(ranks) == ranks[0].failed_chunks
            &&& written_total(ranks) == ranks[0].bytes_written
        },
        ranks.len() == 0 ==> successes(ranks) == 0 && committed_total(ranks) == 0 && failed_total(
            ranks,
        ) == 0 && written_total(ranks) == 0,
    decreases more.len(),
{
    if more.len() > 0 {
        law_reports_add_up(ranks, more.drop_last());
        assert((ranks + more).drop_last() =~= ranks + more.drop_last());
        assert((ranks + more).last() == more.last());
    } else {
        assert(ranks + more =~= ranks);
    }
    if ranks.len() == 1 {
        let none = ranks.drop_last();
        assert(successes(none) == 0 && committed_total(none) == 0 && failed_total(none) == 0
            && written_total(none) == 0);
    }
}

/// A summary holds the sums over all ranks, each in its place. There is none exactly if one
/// of the sums takes more than 64 bits.
pub proof fn law_summaries_hold_the_sums(
    ranks: &Vec<RankResult>,
    summary: Option<RankSummary>,
)
    requires
        call_ensures(summarize, (ranks,), summary),
    ensures
        summary is None <==> committed_total(ranks@) >= 0x1_0000_0000_0000_0000 || failed_total(
            ranks@,
        ) >= 0x1_0000_0000_0000_0000 || written_total(ranks@) >= 0x1_0000_0000_0000_0000,
        summary matches Some(summary) ==> {
            &&& summary.successful_ranks == successes(ranks@)
            &&& summary.committed_chunks == committed_total(ranks@)
            &&& summary.failed_chunks == failed_total(ranks@)
            &&& summary.bytes_written == written_total(ranks@)
        },
{
}

/// An error is handed on as it is. A report says whether the copy succeeded, and its bytes
/// are those that all ranks have written together.
pub proof fn law_answers_are_read(response: OffloadResponse, outcome: OffloadOutcome)
    requires
        call_ensures(read_response, (response,), outcome),
    ensures
        response matches OffloadResponse::ErrorMsg { error } ==> outcome == (
        OffloadOutcome::Refused { error }),
        response is OffloadRetMsg ==> !(outcome is Refused),
        response matches OffloadResponse::OffloadRetMsg { success, rank_results, .. } ==> {
            let ranks = rank_results@;
            &&& outcome is TooLarge <==> committed_total(ranks) >= 0x1_0000_0000_0000_0000
                || failed_total(ranks) >= 0x1_0000_0000_0000_0000 || written_total(ranks)
                >= 0x1_0000_0000_0000_0000
            &&& outcome matches OffloadOutcome::Finished { result, summary } ==> {
                &&& result.success == success
                &&& result.bytes_written == written_total(ranks)
                &&& summary.successful_ranks == successes(ranks)
                &&& summary.committed_chunks == committed_total(ranks)
                &&& summary.failed_chunks == failed_total(ranks)
                &&& summary.bytes_written == written_total(ranks)
            }
        },
{
}

/// What an error says.
pub proof fn law_errors_say_what_is_missing(error: &OffloadError, text: String)
    requires
        call_ensures(OffloadError::message, (error,), text),
    ensures
        *error is NotConfigured ==> text@ == "LMCache offload client is not configured"@,
        *error matches OffloadError::NoInstance { worker_id } ==> text@
            == "no LMCache instance mapping for worker "@ + decimal(worker_id as nat),
{
}

/// The identifier of an exchange says what it is for, before a random part.
pub proof fn law_identifiers_say_what_they_are_for(event_id: String)
    requires
        call_ensures(new_event_id, (), event_id),
    ensures
        event_id@.take("background-offload-"@.len() as int) == "background-offload-"@,
{
    let front = "background-offload-"@;
    let rest = choose|uuid: Seq<char>| is_random_uuid(uuid) && event_id@ == front + uuid;
    assert((front + rest).take(front.len() as int) =~= front);
}

} // verus!
