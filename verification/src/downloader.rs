//! The download orchestrator: a state machine that decides, step by step,
//! what a download job does next.
//!
//! The orchestrator performs no I/O itself. The surrounding application
//! drives each job: it calls [`Downloader::start`], performs the returned
//! [`JobAction`], feeds the outcome back as a [`JobEvent`] through
//! [`Downloader::step`], and repeats until the state is [`JobState::Done`].

use vstd::prelude::*;
use crate::errors::{DownloadError, DownloadResult};
use crate::helpers::{after_last_slash, file_name_of_url};
use crate::planner::{plan_fragments, plan_spec, FragmentSpec};

verus! {

/// What a probe of the remote resource reported: whether byte ranges are
/// accepted, and the declared size in bytes (zero when unknown).
#[derive(Debug, Clone, Copy, PartialEq, Eq, Structural)]
pub struct ResourceMeta {
    pub supports_ranges: bool,
    pub total_size: u64,
}

/// The per-job configuration of the orchestrator: how many fragments an
/// eligible download is split into.
#[derive(Debug, Clone, Copy, PartialEq, Eq, Structural)]
pub struct Downloader {
    pub fragments: usize,
}

/// Where a download job stands.
#[derive(Debug)]
pub enum JobState {
    /// Waiting to learn whether the destination file already exists.
    CheckingDestination,
    /// Waiting for the result of the metadata probe.
    Probing,
    /// A single unfragmented fetch is in flight.
    FetchingWhole,
    /// Concurrent fragment fetches are in flight.
    FetchingFragments,
    /// All fragments arrived; waiting for the ordered reassembly.
    Reassembling,
    /// The job ended with this result.
    Done(DownloadResult),
}

/// What the application reports back to the orchestrator.
#[derive(Debug)]
pub enum JobEvent {
    /// Whether a file already exists at the destination path.
    DestinationChecked(bool),
    /// The metadata probe answered.
    Probed(ResourceMeta),
    /// The metadata probe failed to reach the resource.
    ProbeFailed(DownloadError),
    /// The single unfragmented fetch finished.
    WholeFetched(Result<(), DownloadError>),
    /// All fragment fetches finished, or one of them failed.
    FragmentsFetched(Result<(), DownloadError>),
    /// The ordered reassembly finished.
    Reassembled(Result<(), DownloadError>),
}

/// What the application must do next.
#[derive(Debug)]
pub enum JobAction {
    /// Check whether a file with this name exists in the destination
    /// directory.
    CheckDestination(String),
    /// Issue the metadata probe (one HEAD request, no disk I/O).
    Probe,
    /// Fetch the whole resource with one request, straight to the
    /// destination file.
    FetchWhole,
    /// Fetch each planned fragment concurrently to its temporary file.
    FetchFragments(Vec<FragmentSpec>),
    /// Concatenate this many fragment files, in ascending index order, into
    /// the destination file, deleting each temporary afterwards.
    Reassemble(usize),
    /// The job is over; report this result to the caller.
    Report(DownloadResult),
}

/// The mathematical shadow of a [`JobAction`], used in contracts.
pub ghost enum ActionSpec {
    CheckDestination(Seq<char>),
    Probe,
    FetchWhole,
    FetchFragments(Seq<FragmentSpec>),
    Reassemble(nat),
    Report(DownloadResult),
}

/// The contract-level value of an action.
pub open spec fn action_view(a: JobAction) -> ActionSpec {
    match a {
        JobAction::CheckDestination(name) => ActionSpec::CheckDestination(name@),
        JobAction::Probe => ActionSpec::Probe,
        JobAction::FetchWhole => ActionSpec::FetchWhole,
        JobAction::FetchFragments(plan) => ActionSpec::FetchFragments(plan@),
        JobAction::Reassemble(count) => ActionSpec::Reassemble(count as nat),
        JobAction::Report(result) => ActionSpec::Report(result),
    }
}

/// Whether an action sends anything over the network.
pub open spec fn is_network_action(a: ActionSpec) -> bool {
    ||| a is Probe
    ||| a is FetchWhole
    ||| a is FetchFragments
}

/// How many fetch (GET) requests an action issues. The probe is a metadata
/// request, not a fetch.
pub open spec fn fetch_requests(a: ActionSpec) -> nat {
    match a {
        ActionSpec::FetchWhole => 1,
        ActionSpec::FetchFragments(plan) => plan.len(),
        _ => 0,
    }
}

/// How many fetch requests a whole run of actions issues.
pub open spec fn total_fetch_requests(actions: Seq<ActionSpec>) -> nat
    decreases actions.len(),
{
    if actions.len() == 0 {
        0
    } else {
        fetch_requests(actions[0]) + total_fetch_requests(actions.drop_first())
    }
}

impl Downloader {
    /// A downloader always splits into at least one fragment.
    pub open spec fn wf(&self) -> bool {
        1 <= self.fragments
    }

    /// A downloader that splits eligible resources into `fragments` pieces.
    pub fn new(fragments: usize) -> (r: Downloader)
        requires
            1 <= fragments,
        ensures
            r.fragments == fragments,
            r.wf(),
    {
        Downloader { fragments }
    }

    /// Whether a probed resource is downloaded in fragments: it must accept
    /// byte ranges and be large enough to give every fragment at least one
    /// byte. Anything else — no range support, unknown (zero) size, or a
    /// resource smaller than the fragment count — is fetched whole.
    pub open spec fn splits(&self, meta: ResourceMeta) -> bool {
        meta.supports_ranges && meta.total_size >= self.fragments as u64
    }

    /// Opens a job for a URL. If the URL has no extractable file name the
    /// job fails at once with an input error; otherwise the first step is to
    /// check whether the destination file already exists.
    pub fn start(&self, url: &str) -> (r: (JobState, JobAction))
        requires
            self.wf(),
        ensures
            after_last_slash(url@).len() == 0 ==> {
                &&& r.0 matches JobState::Done(DownloadResult::Failed(DownloadError::Input(_)))
                &&& r.1 matches JobAction::Report(result) && r.0 == JobState::Done(result)
            },
            after_last_slash(url@).len() > 0 ==> {
                &&& r.0 is CheckingDestination
                &&& r.1 matches JobAction::CheckDestination(name) && name@ == after_last_slash(
                    url@,
                )
            },
    {
        match file_name_of_url(url) {
            Some(name) => (JobState::CheckingDestination, JobAction::CheckDestination(name)),
            None => {
                let message = String::from_str("URL has no file name");
                let result = DownloadResult::Failed(DownloadError::Input(message));
                (JobState::Done(result.clone()), JobAction::Report(result))
            },
        }
    }

    /// One step of the job state machine: consumes the event the application
    /// reported and returns the next state and the next action. The exact
    /// transition table is [`spec_step`].
    pub fn step(&self, state: JobState, event: JobEvent) -> (r: (JobState, JobAction))
        requires
            self.wf(),
            accepts(*self, state, event),
        ensures
            spec_step(*self, state, event) == Some((r.0, action_view(r.1))),
    {
        match (state, event) {
            (JobState::CheckingDestination, JobEvent::DestinationChecked(exists)) => {
                if exists {
                    (
                        JobState::Done(DownloadResult::Skipped),
                        JobAction::Report(DownloadResult::Skipped),
                    )
                } else {
                    (JobState::Probing, JobAction::Probe)
                }
            },
            (JobState::Probing, JobEvent::Probed(meta)) => {
                if meta.supports_ranges && meta.total_size >= self.fragments as u64 {
                    let plan = plan_fragments(meta.total_size, self.fragments);
                    (JobState::FetchingFragments, JobAction::FetchFragments(plan))
                } else {
                    (JobState::FetchingWhole, JobAction::FetchWhole)
                }
            },
            (JobState::Probing, JobEvent::ProbeFailed(error)) => {
                let result = DownloadResult::Failed(error);
                (JobState::Done(result.clone()), JobAction::Report(result))
            },
            (JobState::FetchingWhole, JobEvent::WholeFetched(outcome)) => match outcome {
                Ok(_) => (
                    JobState::Done(DownloadResult::Completed),
                    JobAction::Report(DownloadResult::Completed),
                ),
                Err(error) => {
                    let result = DownloadResult::Failed(error);
                    (JobState::Done(result.clone()), JobAction::Report(result))
                },
            },
            (JobState::FetchingFragments, JobEvent::FragmentsFetched(outcome)) => match outcome {
                Ok(_) => (JobState::Reassembling, JobAction::Reassemble(self.fragments)),
                Err(error) => {
                    let result = DownloadResult::Failed(error);
                    (JobState::Done(result.clone()), JobAction::Report(result))
                },
            },
            (JobState::Reassembling, JobEvent::Reassembled(outcome)) => match outcome {
                Ok(_) => (
                    JobState::Done(DownloadResult::Completed),
                    JobAction::Report(DownloadResult::Completed),
                ),
                Err(error) => {
                    let result = DownloadResult::Failed(error);
                    (JobState::Done(result.clone()), JobAction::Report(result))
                },
            },
            _ => {
                proof {
                    assert(false);
                }
                (JobState::Probing, JobAction::Probe)
            },
        }
    }
}

/// The transition table of the job state machine: `None` where the event
/// does not belong to the state, otherwise the next state and the action the
/// application must perform.
pub open spec fn spec_step(d: Downloader, s: JobState, e: JobEvent) -> Option<
    (JobState, ActionSpec),
> {
    match (s, e) {
        (JobState::CheckingDestination, JobEvent::DestinationChecked(exists)) => {
            if exists {
                Some(
                    (
                        JobState::Done(DownloadResult::Skipped),
                        ActionSpec::Report(DownloadResult::Skipped),
                    ),
                )
            } else {
                Some((JobState::Probing, ActionSpec::Probe))
            }
        },
        (JobState::Probing, JobEvent::Probed(meta)) => {
            if d.splits(meta) {
                Some(
                    (
                        JobState::FetchingFragments,
                        ActionSpec::FetchFragments(plan_spec(meta.total_size, d.fragments)),
                    ),
                )
            } else {
                Some((JobState::FetchingWhole, ActionSpec::FetchWhole))
            }
        },
        (JobState::Probing, JobEvent::ProbeFailed(error)) => Some(
            (
                JobState::Done(DownloadResult::Failed(error)),
                ActionSpec::Report(DownloadResult::Failed(error)),
            ),
        ),
        (JobState::FetchingWhole, JobEvent::WholeFetched(outcome)) => match outcome {
            Ok(_) => Some(
                (
                    JobState::Done(DownloadResult::Completed),
                    ActionSpec::Report(DownloadResult::Completed),
                ),
            ),
            Err(error) => Some(
                (
                    JobState::Done(DownloadResult::Failed(error)),
                    ActionSpec::Report(DownloadResult::Failed(error)),
                ),
            ),
        },
        (JobState::FetchingFragments, JobEvent::FragmentsFetched(outcome)) => match outcome {
            Ok(_) => Some((JobState::Reassembling, ActionSpec::Reassemble(d.fragments as nat))),
            Err(error) => Some(
                (
                    JobState::Done(DownloadResult::Failed(error)),
                    ActionSpec::Report(DownloadResult::Failed(error)),
                ),
            ),
        },
        (JobState::Reassembling, JobEvent::Reassembled(outcome)) => match outcome {
            Ok(_) => Some(
                (
                    JobState::Done(DownloadResult::Completed),
                    ActionSpec::Report(DownloadResult::Completed),
                ),
            ),
            Err(error) => Some(
                (
                    JobState::Done(DownloadResult::Failed(error)),
                    ActionSpec::Report(DownloadResult::Failed(error)),
                ),
            ),
        },
        _ => None,
    }
}

/// Whether the state machine accepts this event in this state.
pub open spec fn accepts(d: Downloader, s: JobState, e: JobEvent) -> bool {
    spec_step(d, s, e) is Some
}

/// A whole run of one job: the state machine is stepped once per event, in
/// order. `None` when some event does not belong to the state it meets;
/// otherwise the final state and every action the run asked of the
/// application, in order.
pub open spec fn run_steps(d: Downloader, s: JobState, events: Seq<JobEvent>) -> Option<
    (JobState, Seq<ActionSpec>),
>
    decreases events.len(),
{
    if events.len() == 0 {
        Some((s, Seq::empty()))
    } else {
        match spec_step(d, s, events[0]) {
            Option::None => None,
            Option::Some((s1, a)) => match run_steps(d, s1, events.drop_first()) {
                Option::None => None,
                Option::Some((sf, actions)) => Some((sf, seq![a] + actions)),
            },
        }
    }
}

/// The final state of a run that the state machine accepts.
pub open spec fn run_final(d: Downloader, s: JobState, events: Seq<JobEvent>) -> JobState {
    run_steps(d, s, events).unwrap().0
}

/// Every action an accepted run asks of the application, in order.
pub open spec fn run_actions(d: Downloader, s: JobState, events: Seq<JobEvent>) -> Seq<ActionSpec> {
    run_steps(d, s, events).unwrap().1
}

/// A finished job accepts no further events: a run from `Done` exists only
/// for an empty event sequence, and asks for nothing.
proof fn lemma_run_from_done(d: Downloader, result: DownloadResult, events: Seq<JobEvent>)
    requires
        run_steps(d, JobState::Done(result), events) is Some,
    ensures
        events.len() == 0,
        run_actions(d, JobState::Done(result), events) =~= Seq::<ActionSpec>::empty(),
{
    if events.len() > 0 {
        assert(spec_step(d, JobState::Done(result), events[0]) is None);
    }
}

/// If the destination file already exists when a job starts, the job
/// completes successfully (it is skipped) and no network request of any kind
/// is issued: no probe and no fetch.
pub proof fn lemma_existing_destination_skips(d: Downloader, events: Seq<JobEvent>)
    requires
        d.wf(),
        events.len() >= 1,
        events[0] == JobEvent::DestinationChecked(true),
        run_steps(d, JobState::CheckingDestination, events) is Some,
    ensures
        run_final(d, JobState::CheckingDestination, events) == JobState::Done(
            DownloadResult::Skipped,
        ),
        forall|k: int|
            0 <= k < run_actions(d, JobState::CheckingDestination, events).len()
                ==> !is_network_action(
                #[trigger] run_actions(d, JobState::CheckingDestination, events)[k],
            ),
        total_fetch_requests(run_actions(d, JobState::CheckingDestination, events)) == 0,
{
    let s0 = JobState::CheckingDestination;
    let step0 = spec_step(d, s0, events[0]);
    assert(step0 == Some(
        (
            JobState::Done(DownloadResult::Skipped),
            ActionSpec::Report(DownloadResult::Skipped),
        ),
    ));
    let rest = events.drop_first();
    lemma_run_from_done(d, DownloadResult::Skipped, rest);
    let actions = run_actions(d, s0, events);
    assert(actions =~= seq![ActionSpec::Report(DownloadResult::Skipped)]);
    assert(actions.drop_first() =~= Seq::<ActionSpec>::empty());
    assert(fetch_requests(actions[0]) == 0);
    assert(total_fetch_requests(actions.drop_first()) == 0);
    assert(total_fetch_requests(actions) == 0);
}

/// Whether an event reports that the resource does not support byte ranges.
pub open spec fn reports_no_range_support(e: JobEvent) -> bool {
    e matches JobEvent::Probed(meta) && !meta.supports_ranges
}

/// Once the fragment fetches are in flight, the probe is over: no run from
/// these late states ever accepts another probe answer.
proof fn lemma_no_probe_event_after_fragments(d: Downloader, s: JobState, events: Seq<JobEvent>)
    requires
        run_steps(d, s, events) is Some,
        s is FetchingFragments || s is Reassembling || s is Done,
    ensures
        forall|k: int| 0 <= k < events.len() ==> !reports_no_range_support(#[trigger] events[k]),
    decreases events.len(),
{
    if events.len() > 0 {
        let next = spec_step(d, s, events[0]).unwrap().0;
        assert(!reports_no_range_support(events[0]));
        assert(next is FetchingFragments || next is Reassembling || next is Done);
        lemma_no_probe_event_after_fragments(d, next, events.drop_first());
        assert(forall|k: int|
            1 <= k < events.len() ==> !reports_no_range_support(
                #[trigger] events.drop_first()[k - 1],
            ));
        assert(forall|k: int|
            1 <= k < events.len() ==> events.drop_first()[k - 1] == #[trigger] events[k]);
    }
}

/// After the single whole-file fetch is dispatched, the rest of the run
/// fetches nothing more and never splits.
proof fn lemma_no_fetch_after_whole_fetch(d: Downloader, s: JobState, events: Seq<JobEvent>)
    requires
        run_steps(d, s, events) is Some,
        s is FetchingWhole || s is Done,
    ensures
        total_fetch_requests(run_actions(d, s, events)) == 0,
        forall|k: int|
            0 <= k < run_actions(d, s, events).len() ==> !(#[trigger] run_actions(
                d,
                s,
                events,
            )[k] is FetchFragments),
    decreases events.len(),
{
    if events.len() > 0 {
        let step0 = spec_step(d, s, events[0]);
        let next = step0.unwrap().0;
        let a = step0.unwrap().1;
        assert(next is Done);
        assert(fetch_requests(a) == 0);
        assert(!(a is FetchFragments));
        lemma_no_fetch_after_whole_fetch(d, next, events.drop_first());
        let actions = run_actions(d, s, events);
        let rest_actions = run_actions(d, next, events.drop_first());
        assert(actions =~= seq![a] + rest_actions);
        assert(actions.drop_first() =~= rest_actions);
    }
}

proof fn lemma_no_range_single_fetch_from(d: Downloader, s: JobState, events: Seq<JobEvent>)
    requires
        d.wf(),
        s is CheckingDestination || s is Probing,
        run_steps(d, s, events) is Some,
        exists|k: int| 0 <= k < events.len() && reports_no_range_support(#[trigger] events[k]),
    ensures
        total_fetch_requests(run_actions(d, s, events)) == 1,
        forall|k: int|
            0 <= k < run_actions(d, s, events).len() ==> !(#[trigger] run_actions(
                d,
                s,
                events,
            )[k] is FetchFragments),
    decreases events.len(),
{
    let w = choose|k: int| 0 <= k < events.len() && reports_no_range_support(#[trigger] events[k]);
    let step0 = spec_step(d, s, events[0]);
    let next = step0.unwrap().0;
    let a = step0.unwrap().1;
    let rest = events.drop_first();
    let actions = run_actions(d, s, events);
    let rest_actions = run_actions(d, next, rest);
    assert(actions =~= seq![a] + rest_actions);
    assert(actions.drop_first() =~= rest_actions);
    if s is CheckingDestination {
        assert(!reports_no_range_support(events[0]));
        assert(1 <= w);
        assert(rest.len() > 0);
        match events[0] {
            JobEvent::DestinationChecked(exists) => {
                if exists {
                    lemma_run_from_done(d, DownloadResult::Skipped, rest);
                    assert(false);
                } else {
                    assert(reports_no_range_support(rest[w - 1]));
                    lemma_no_range_single_fetch_from(d, next, rest);
                }
            },
            _ => {
                assert(false);
            },
        }
    } else {
        match events[0] {
            JobEvent::Probed(meta) => {
                if d.splits(meta) {
                    assert(meta.supports_ranges);
                    assert(1 <= w);
                    assert(reports_no_range_support(rest[w - 1]));
                    lemma_no_probe_event_after_fragments(d, next, rest);
                    assert(false);
                } else {
                    assert(fetch_requests(a) == 1);
                    lemma_no_fetch_after_whole_fetch(d, next, rest);
                }
            },
            JobEvent::ProbeFailed(error) => {
                assert(1 <= w);
                assert(rest.len() > 0);
                lemma_run_from_done(d, DownloadResult::Failed(error), rest);
                assert(false);
            },
            _ => {
                assert(false);
            },
        }
    }
}

/// A resource that reports no range support is never split: a job whose
/// probe answer says ranges are unsupported issues exactly one fetch request
/// over its whole run, and never a fragment fetch.
pub proof fn lemma_no_range_support_single_fetch(d: Downloader, events: Seq<JobEvent>)
    requires
        d.wf(),
        run_steps(d, JobState::CheckingDestination, events) is Some,
        exists|k: int| 0 <= k < events.len() && reports_no_range_support(#[trigger] events[k]),
    ensures
        total_fetch_requests(run_actions(d, JobState::CheckingDestination, events)) == 1,
        forall|k: int|
            0 <= k < run_actions(d, JobState::CheckingDestination, events).len() ==> !(
            #[trigger] run_actions(d, JobState::CheckingDestination, events)[k]
                is FetchFragments),
{
    lemma_no_range_single_fetch_from(d, JobState::CheckingDestination, events);
}

} // verus!
