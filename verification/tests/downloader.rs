use rustic_fetch::downloader::{Downloader, JobAction, JobEvent, JobState, ResourceMeta};
use rustic_fetch::errors::{DownloadError, DownloadResult};

fn fetch_requests_of(action: &JobAction) -> usize {
    match action {
        JobAction::FetchWhole => 1,
        JobAction::FetchFragments(plan) => plan.len(),
        _ => 0,
    }
}

fn is_network(action: &JobAction) -> bool {
    matches!(
        action,
        JobAction::Probe | JobAction::FetchWhole | JobAction::FetchFragments(_)
    )
}

#[test]
fn start_extracts_destination_file_name() {
    let d = Downloader::new(2);
    let (state, action) = d.start("https://example.com/test.mp4");
    assert!(matches!(state, JobState::CheckingDestination));
    match action {
        JobAction::CheckDestination(name) => assert_eq!(name, "test.mp4"),
        _ => panic!("expected a destination check"),
    }
}

#[test]
fn start_rejects_url_without_file_name() {
    let d = Downloader::new(2);
    let (state, action) = d.start("https://example.com/");
    assert!(matches!(
        state,
        JobState::Done(DownloadResult::Failed(DownloadError::Input(_)))
    ));
    assert!(matches!(
        action,
        JobAction::Report(DownloadResult::Failed(DownloadError::Input(_)))
    ));
}

#[test]
fn existing_destination_skips_without_network() {
    let d = Downloader::new(2);
    let (state, first_action) = d.start("https://example.com/test.mp4");
    assert!(!is_network(&first_action));
    let (state, action) = d.step(state, JobEvent::DestinationChecked(true));
    assert!(matches!(state, JobState::Done(DownloadResult::Skipped)));
    assert!(matches!(action, JobAction::Report(DownloadResult::Skipped)));
    assert!(!is_network(&action));
}

#[test]
fn segmented_download_runs_to_completion() {
    let d = Downloader::new(2);
    let (state, _) = d.start("https://example.com/test.mp4");
    let (state, action) = d.step(state, JobEvent::DestinationChecked(false));
    assert!(matches!(state, JobState::Probing));
    assert!(matches!(action, JobAction::Probe));
    let meta = ResourceMeta { supports_ranges: true, total_size: 100 };
    let (state, action) = d.step(state, JobEvent::Probed(meta));
    assert!(matches!(state, JobState::FetchingFragments));
    match &action {
        JobAction::FetchFragments(plan) => {
            assert_eq!(plan.len(), 2);
            assert_eq!(plan[0].start_byte, 0);
            assert_eq!(plan[0].end_byte, 49);
            assert_eq!(plan[1].start_byte, 50);
            assert_eq!(plan[1].end_byte, 99);
        },
        _ => panic!("expected fragment fetches"),
    }
    let (state, action) = d.step(state, JobEvent::FragmentsFetched(Ok(())));
    assert!(matches!(state, JobState::Reassembling));
    assert!(matches!(action, JobAction::Reassemble(2)));
    let (state, action) = d.step(state, JobEvent::Reassembled(Ok(())));
    assert!(matches!(state, JobState::Done(DownloadResult::Completed)));
    assert!(matches!(action, JobAction::Report(DownloadResult::Completed)));
}

#[test]
fn no_range_support_issues_exactly_one_fetch() {
    let d = Downloader::new(2);
    let mut fetches: usize = 0;
    let mut split = false;
    let (state, action) = d.start("https://example.com/test.mp4");
    fetches += fetch_requests_of(&action);
    split = split || matches!(action, JobAction::FetchFragments(_));
    let (state, action) = d.step(state, JobEvent::DestinationChecked(false));
    fetches += fetch_requests_of(&action);
    split = split || matches!(action, JobAction::FetchFragments(_));
    let meta = ResourceMeta { supports_ranges: false, total_size: 100 };
    let (state, action) = d.step(state, JobEvent::Probed(meta));
    assert!(matches!(state, JobState::FetchingWhole));
    assert!(matches!(action, JobAction::FetchWhole));
    fetches += fetch_requests_of(&action);
    split = split || matches!(action, JobAction::FetchFragments(_));
    let (state, action) = d.step(state, JobEvent::WholeFetched(Ok(())));
    fetches += fetch_requests_of(&action);
    split = split || matches!(action, JobAction::FetchFragments(_));
    assert!(matches!(state, JobState::Done(DownloadResult::Completed)));
    assert_eq!(fetches, 1);
    assert!(!split);
}

#[test]
fn unknown_size_is_fetched_whole() {
    let d = Downloader::new(2);
    let (state, _) = d.start("https://example.com/test.mp4");
    let (state, _) = d.step(state, JobEvent::DestinationChecked(false));
    let meta = ResourceMeta { supports_ranges: true, total_size: 0 };
    let (state, action) = d.step(state, JobEvent::Probed(meta));
    assert!(matches!(state, JobState::FetchingWhole));
    assert!(matches!(action, JobAction::FetchWhole));
}

#[test]
fn resource_smaller_than_fragment_count_is_fetched_whole() {
    let d = Downloader::new(4);
    let (state, _) = d.start("https://example.com/test.mp4");
    let (state, _) = d.step(state, JobEvent::DestinationChecked(false));
    let meta = ResourceMeta { supports_ranges: true, total_size: 3 };
    let (state, action) = d.step(state, JobEvent::Probed(meta));
    assert!(matches!(state, JobState::FetchingWhole));
    assert!(matches!(action, JobAction::FetchWhole));
}

#[test]
fn probe_failure_fails_the_job() {
    let d = Downloader::new(2);
    let (state, _) = d.start("https://example.com/test.mp4");
    let (state, _) = d.step(state, JobEvent::DestinationChecked(false));
    let error = DownloadError::Transport("connection refused".to_string());
    let (state, action) = d.step(state, JobEvent::ProbeFailed(error));
    assert!(matches!(
        state,
        JobState::Done(DownloadResult::Failed(DownloadError::Transport(_)))
    ));
    assert!(matches!(
        action,
        JobAction::Report(DownloadResult::Failed(DownloadError::Transport(_)))
    ));
}

#[test]
fn fragment_failure_fails_the_job() {
    let d = Downloader::new(2);
    let (state, _) = d.start("https://example.com/test.mp4");
    let (state, _) = d.step(state, JobEvent::DestinationChecked(false));
    let meta = ResourceMeta { supports_ranges: true, total_size: 100 };
    let (state, _) = d.step(state, JobEvent::Probed(meta));
    let error = DownloadError::Concurrency("fragment task failed".to_string());
    let (state, _) = d.step(state, JobEvent::FragmentsFetched(Err(error)));
    assert!(matches!(
        state,
        JobState::Done(DownloadResult::Failed(DownloadError::Concurrency(_)))
    ));
}

#[test]
fn reassembly_failure_fails_the_job() {
    let d = Downloader::new(2);
    let (state, _) = d.start("https://example.com/test.mp4");
    let (state, _) = d.step(state, JobEvent::DestinationChecked(false));
    let meta = ResourceMeta { supports_ranges: true, total_size: 100 };
    let (state, _) = d.step(state, JobEvent::Probed(meta));
    let (state, _) = d.step(state, JobEvent::FragmentsFetched(Ok(())));
    let error = DownloadError::Filesystem("disk full".to_string());
    let (state, _) = d.step(state, JobEvent::Reassembled(Err(error)));
    assert!(matches!(
        state,
        JobState::Done(DownloadResult::Failed(DownloadError::Filesystem(_)))
    ));
}

#[test]
fn duplicate_jobs_for_one_url_skip_the_second() {
    let url = "https://example.com/test.mp4";
    let mut file_exists = false;
    let d = Downloader::new(2);

    // The first job finds no file and downloads it whole.
    let (state, _) = d.start(url);
    let (state, _) = d.step(state, JobEvent::DestinationChecked(file_exists));
    let meta = ResourceMeta { supports_ranges: false, total_size: 100 };
    let (state, _) = d.step(state, JobEvent::Probed(meta));
    let (state, _) = d.step(state, JobEvent::WholeFetched(Ok(())));
    assert!(matches!(state, JobState::Done(DownloadResult::Completed)));
    file_exists = true;

    // The second job observes the file the first one wrote and skips
    // without any network action.
    let (state, action) = d.start(url);
    assert!(!is_network(&action));
    let (state, action) = d.step(state, JobEvent::DestinationChecked(file_exists));
    assert!(matches!(state, JobState::Done(DownloadResult::Skipped)));
    assert!(!is_network(&action));
}

#[test]
fn results_report_success_distinctly() {
    assert!(DownloadResult::Completed.is_success());
    assert!(DownloadResult::Skipped.is_success());
    let failed = DownloadResult::Failed(DownloadError::Transport("x".to_string()));
    assert!(!failed.is_success());
}
