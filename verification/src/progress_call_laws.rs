//! What the accounting of a stream counts and reports, told of its calls.

use crate::error::{ErrorSource, StreamError, StreamErrorKind};
use crate::progress::{
    micros, millis, nanos, ChunkReport, ErrorInfo, Level, ProgressItem, ProgressOptions, ProgressState,
    Report, StreamOutcome,
};
use std::time::Duration;
use vstd::prelude::*;

verus! {

/// Accounting begins with nothing counted; a step of no items is none.
pub proof fn law_new_accounts<H, P>(
    options: ProgressOptions<H, P>,
    tracing: bool,
    state: Option<ProgressState>,
)
    requires
        call_ensures(ProgressState::maybe_new::<H, P>, (&options, tracing), state),
    ensures
        state is Some <==> options.on_progress is Some || options.on_error is Some || tracing,
        state matches Some(state) ==> {
            let account = state.account();
            &&& state.wf()
            &&& account.items == 0 && account.bytes == 0 && account.errors == 0
            &&& account.last_emit == 0
            &&& !account.polled && !account.finalized
            &&& account.interval is Some == options.progress_interval is Some
            &&& options.progress_interval matches Some(interval) ==> account.interval == Some(
                micros(interval),
            )
            &&& options.progress_items matches Some(step) ==> (step > 0 ==> account.step == Some(
                step,
            ) && account.next_step == step)
            &&& options.progress_items is None || options.progress_items == Some(0u64)
                ==> account.step is None
        },
{
}

/// Bytes are added up, starting over beyond what a counter can hold; a report is due where the time
/// since the last one has reached the interval and the stream has not been summed up, and it starts the
/// next interval. Nothing else changes.
pub proof fn law_counted_bytes(
    state: &mut ProgressState,
    len: u64,
    elapsed: Duration,
    report: ChunkReport,
)
    requires
        old(state).wf(),
        call_ensures(ProgressState::record_bytes, (state, len, elapsed), report),
    ensures
        ({
            let before = old(state).account();
            let after = final(state).account();
            let now = micros(elapsed);
            let since = if now >= before.last_emit {
                now - before.last_emit
            } else {
                0
            };
            let due = !before.finalized && (before.interval matches Some(interval) && since
                >= interval);
            &&& final(state).wf()
            &&& after.bytes == (before.bytes + len) % 0x1_0000_0000_0000_0000
            &&& after.items == before.items && after.errors == before.errors
            &&& after.polled == before.polled && after.finalized == before.finalized
            &&& after.interval == before.interval && after.step == before.step
            &&& after.next_step == before.next_step
            &&& after.last_emit == (if due {
                now
            } else {
                before.last_emit
            })
            &&& report.chunk_bytes == len
            &&& report.items == before.items
            &&& report.bytes == after.bytes
            &&& report.due is Some <==> due
            &&& report.due matches Some(report) ==> report.progress.items == after.items
                && report.progress.bytes == after.bytes && report.progress.errors == after.errors
                && report.progress.outcome == StreamOutcome::InProgress && report.progress.elapsed
                == elapsed
        }),
{
}

/// Items are counted, starting over beyond what a counter can hold; a report is due where the count has
/// reached the next step and the stream has not been summed up; the step after that is the first multiple
/// beyond the count, and the interval starts anew. Nothing else changes.
pub proof fn law_counted_items(
    state: &mut ProgressState,
    elapsed: Duration,
    report: Option<Report>,
)
    requires
        old(state).wf(),
        call_ensures(ProgressState::record_item, (state, elapsed), report),
    ensures
        ({
            let before = old(state).account();
            let after = final(state).account();
            let due = !before.finalized && before.step is Some && after.items >= before.next_step;
            &&& final(state).wf()
            &&& after.items == (before.items + 1) % 0x1_0000_0000_0000_0000
            &&& after.bytes == before.bytes && after.errors == before.errors
            &&& after.polled == before.polled && after.finalized == before.finalized
            &&& after.interval == before.interval && after.step == before.step
            &&& report is Some <==> due
            &&& !due ==> after.next_step == before.next_step && after.last_emit == before.last_emit
            &&& due ==> after.last_emit == micros(elapsed)
            &&& due && before.step->Some_0 > 0 && after.items + before.step->Some_0 <= u64::MAX ==> {
                let step = before.step->Some_0;
                &&& after.items < after.next_step <= after.items + step
                &&& after.next_step as int % step as int == 0
            }
            &&& report matches Some(report) ==> report.progress.items == after.items
                && report.progress.bytes == after.bytes && report.progress.errors == after.errors
                && report.progress.outcome == StreamOutcome::InProgress && report.progress.elapsed
                == elapsed
        }),
{
    let before = old(state).account();
    let after = final(state).account();
    if before.step is Some && before.step->Some_0 > 0 && after.items + before.step->Some_0
        <= u64::MAX {
        let step = before.step->Some_0 as int;
        let items = after.items as int;
        assert(0 <= items % step < step) by (nonlinear_arith)
            requires
                step > 0,
                items >= 0,
        ;
        assert(items % step <= items) by (nonlinear_arith)
            requires
                step > 0,
                items >= 0,
        ;
        let steps = items / step + 1;
        vstd::arithmetic::div_mod::lemma_fundamental_div_mod(items, step);
        assert(items - items % step + step == step * steps) by (nonlinear_arith)
            requires
                items == step * (items / step) + items % step,
                steps == items / step + 1,
        ;
        vstd::arithmetic::div_mod::lemma_mod_multiples_basic(steps, step);
        assert(step * steps == steps * step) by (nonlinear_arith);
    }
}

/// Errors are counted, and that the stream is polled is taken note of; nothing else changes.
pub proof fn law_counted_errors(errors: &mut ProgressState, polls: &mut ProgressState)
    requires
        old(errors).wf(),
        old(polls).wf(),
        call_ensures(ProgressState::record_error, (errors,), ()),
        call_ensures(ProgressState::mark_polled, (polls,), ()),
    ensures
        ({
            let before = old(errors).account();
            let after = final(errors).account();
            &&& after.errors == (before.errors + 1) % 0x1_0000_0000_0000_0000
            &&& after.items == before.items && after.bytes == before.bytes
            &&& after.polled == before.polled && after.finalized == before.finalized
            &&& after.last_emit == before.last_emit && after.next_step == before.next_step
            &&& after.interval == before.interval && after.step == before.step
        }),
        ({
            let before = old(polls).account();
            let after = final(polls).account();
            &&& after.polled
            &&& after.items == before.items && after.bytes == before.bytes && after.errors
                == before.errors
            &&& after.finalized == before.finalized
            &&& after.last_emit == before.last_emit && after.next_step == before.next_step
            &&& after.interval == before.interval && after.step == before.step
        }),
{
}

/// A stream is summed up once, and only where it was polled: as failed where it reported an error, as
/// aborted where it was given up, and as completed otherwise. The counts stay as they are.
pub proof fn law_summed_up(
    state: &mut ProgressState,
    aborted: bool,
    elapsed: Duration,
    report: Option<Report>,
)
    requires
        old(state).wf(),
        call_ensures(ProgressState::finalize, (state, aborted, elapsed), report),
    ensures
        ({
            let before = old(state).account();
            let after = final(state).account();
            &&& report is Some <==> before.polled && !before.finalized
            &&& after.finalized <==> before.finalized || before.polled
            &&& after.items == before.items && after.bytes == before.bytes && after.errors
                == before.errors && after.polled == before.polled
            &&& report matches Some(report) ==> {
                &&& report.progress.items == before.items
                &&& report.progress.bytes == before.bytes
                &&& report.progress.errors == before.errors
                &&& report.progress.elapsed == elapsed
                &&& before.errors > 0 ==> report.progress.outcome == StreamOutcome::Failed
                    && report.level == Level::Error
                &&& before.errors == 0 && aborted ==> report.progress.outcome
                    == StreamOutcome::Aborted && report.level == Level::Info
                &&& before.errors == 0 && !aborted ==> report.progress.outcome
                    == StreamOutcome::Completed && report.level == Level::Info
            }
        }),
{
}

/// A report tells of the counts and the time, at a level and in words that go with the outcome.
pub proof fn law_reports(
    state: ProgressState,
    outcome: StreamOutcome,
    elapsed: Duration,
    report: Report,
)
    requires
        call_ensures(ProgressState::emit, (&state, outcome, elapsed), report),
    ensures
        report.progress.items == state.account().items,
        report.progress.bytes == state.account().bytes,
        report.progress.errors == state.account().errors,
        report.progress.elapsed == elapsed,
        report.progress.outcome == outcome,
        report.elapsed_ms == millis(elapsed),
        match outcome {
            StreamOutcome::InProgress => report.level == Level::Debug && report.message@
                == "Streaming an HTTP body"@,
            StreamOutcome::Failed => report.level == Level::Error && report.message@
                == "Failed streaming an HTTP body"@,
            StreamOutcome::Completed | StreamOutcome::Aborted => report.level == Level::Info
                && report.message@ == "Finished streaming an HTTP body"@,
        },
{
}

/// Without any setting nobody listens, and progress is reported by the second.
pub proof fn law_default_progress<H, P>(options: ProgressOptions<H, P>)
    requires
        call_ensures(<ProgressOptions<H, P> as Default>::default, (), options),
    ensures
        options.on_progress is None,
        options.on_error is None,
        options.progress_items is None,
        options.progress_interval matches Some(interval) && nanos(interval) == 1_000_000_000,
{
}

/// A failed item is an error, and any other is none.
pub proof fn law_failed_items<T>(
    item: Result<T, StreamError>,
    info: Option<ErrorInfo<'_, StreamError>>,
)
    requires
        call_ensures(
            <Result<T, StreamError> as ProgressItem>::progress_error,
            (&item,),
            info,
        ),
    ensures
        match item {
            Ok(_) => info is None,
            Err(error) => info matches Some(info) && info.shown() == error && info.typed() == Some(
                &error,
            ),
        },
{
}

/// A failure of input or output becomes an error of that kind, with the failure as its cause.
pub proof fn law_io_failures(failure: std::io::Error, error: StreamError)
    requires
        call_ensures(<StreamError as From<std::io::Error>>::from, (failure,), error),
    ensures
        error@.kind == StreamErrorKind::InputOutputError,
        error@.source == Some(ErrorSource::Io(failure)),
        error@.message is None,
{
}

} // verus!
