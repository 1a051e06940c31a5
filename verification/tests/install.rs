use gibfonts::asset::ReleaseAsset;
use gibfonts::error::{DownloadError, ExtractError, InstallError};
use gibfonts::install::{InstallRun, Phase, Report};
use gibfonts::progress::ProgressEvent;

fn bundle(name: &str, size: u32) -> ReleaseAsset {
    ReleaseAsset {
        name: format!("{}.tar.xz", name),
        browser_download_url: format!("https://example.invalid/{}.tar.xz", name),
        size,
    }
}

fn downloading(name: &str, done: u32, total: u32) -> ProgressEvent {
    ProgressEvent::Downloading { name: name.to_string(), done, total }
}

fn installing(name: &str) -> ProgressEvent {
    ProgressEvent::Installing(name.to_string())
}

fn play(run: &mut InstallRun, reports: Vec<Report>) -> Vec<ProgressEvent> {
    let mut events = Vec::new();
    for report in reports {
        if let Some(event) = run.step(report) {
            events.push(event);
        }
    }
    events
}

fn transport(reason: &str) -> InstallError {
    InstallError::Download(DownloadError::Transport(reason.to_string()))
}

#[test]
fn a_run_starts_idle() {
    let run = InstallRun::new(vec![bundle("Hack", 10)]);
    assert_eq!(run.phase(), Phase::Idle);
    assert_eq!(run.current(), None);
}

#[test]
fn two_bundles_that_succeed_end_with_one_finished() {
    let mut run = InstallRun::new(vec![bundle("Hack", 30), bundle("Agave", 5)]);
    let events = play(
        &mut run,
        vec![
            Report::Started,
            Report::Received(10),
            Report::Received(20),
            Report::Received(0),
            Report::Downloaded,
            Report::Installed,
            Report::Received(5),
            Report::Downloaded,
            Report::Installed,
        ],
    );
    assert_eq!(
        events,
        vec![
            downloading("Hack", 0, 30),
            downloading("Hack", 10, 30),
            downloading("Hack", 30, 30),
            downloading("Hack", 30, 30),
            installing("Hack"),
            downloading("Agave", 0, 5),
            downloading("Agave", 5, 5),
            installing("Agave"),
            ProgressEvent::Finished,
        ]
    );
    assert_eq!(run.phase(), Phase::Done);
    assert_eq!(events.iter().filter(|e| **e == ProgressEvent::Finished).count(), 1);
    assert_eq!(events.last(), Some(&ProgressEvent::Finished));
}

#[test]
fn a_failure_of_the_second_bundle_stops_the_run_before_the_third() {
    let mut run =
        InstallRun::new(vec![bundle("Hack", 30), bundle("Agave", 5), bundle("Ubuntu", 7)]);
    let events = play(
        &mut run,
        vec![
            Report::Started,
            Report::Received(30),
            Report::Downloaded,
            Report::Installed,
            Report::Received(2),
            Report::Failed(transport("connection reset")),
            Report::Received(3),
            Report::Downloaded,
            Report::Installed,
            Report::Started,
        ],
    );
    assert_eq!(
        events,
        vec![
            downloading("Hack", 0, 30),
            downloading("Hack", 30, 30),
            installing("Hack"),
            downloading("Agave", 0, 5),
            downloading("Agave", 2, 5),
            ProgressEvent::Error("connection reset".to_string()),
        ]
    );
    assert_eq!(run.phase(), Phase::Error);
    assert_eq!(run.current(), None);
    for event in &events {
        match event {
            ProgressEvent::Downloading { name, .. } => assert_ne!(name, "Ubuntu"),
            ProgressEvent::Installing(name) => assert_ne!(name, "Ubuntu"),
            ProgressEvent::Finished => panic!("a failed run does not finish"),
            ProgressEvent::Error(_) => {}
        }
    }
}

#[test]
fn a_failure_while_installing_stops_the_run() {
    let mut run = InstallRun::new(vec![bundle("Hack", 3), bundle("Agave", 5)]);
    let events = play(
        &mut run,
        vec![
            Report::Started,
            Report::Received(3),
            Report::Downloaded,
            Report::Failed(InstallError::Extract(ExtractError::MissingFileName)),
            Report::Installed,
        ],
    );
    assert_eq!(
        events,
        vec![
            downloading("Hack", 0, 3),
            downloading("Hack", 3, 3),
            installing("Hack"),
            ProgressEvent::Error("encountered archive entry without filename".to_string()),
        ]
    );
    assert_eq!(run.phase(), Phase::Error);
}

#[test]
fn an_empty_batch_finishes_at_once() {
    let mut run = InstallRun::new(Vec::new());
    assert_eq!(run.step(Report::Started), Some(ProgressEvent::Finished));
    assert_eq!(run.phase(), Phase::Done);
    assert_eq!(run.step(Report::Started), None);
    assert_eq!(run.step(Report::Installed), None);
}

#[test]
fn done_counts_the_bytes_of_all_chunks() {
    let chunks: Vec<usize> = vec![1, 0, 4096, 7, 0, 123_456, 1];
    let total: usize = chunks.iter().sum();
    let mut run = InstallRun::new(vec![bundle("Hack", total as u32)]);
    assert_eq!(run.step(Report::Started), Some(downloading("Hack", 0, total as u32)));
    let mut last = 0u32;
    let mut sum = 0usize;
    for chunk in chunks {
        sum += chunk;
        match run.step(Report::Received(chunk)) {
            Some(ProgressEvent::Downloading { name, done, total: shown }) => {
                assert_eq!(name, "Hack");
                assert_eq!(shown, total as u32);
                assert!(done >= last);
                assert_eq!(done as usize, sum);
                last = done;
            }
            other => panic!("unexpected event {:?}", other),
        }
    }
    assert_eq!(last as usize, total);
}

#[test]
fn done_may_pass_the_size_that_the_feed_gave() {
    let mut run = InstallRun::new(vec![bundle("Hack", 10)]);
    run.step(Report::Started);
    assert_eq!(run.step(Report::Received(8)), Some(downloading("Hack", 8, 10)));
    assert_eq!(run.step(Report::Received(8)), Some(downloading("Hack", 16, 10)));
}

#[test]
fn done_stops_at_the_largest_u32() {
    let mut run = InstallRun::new(vec![bundle("Hack", 10)]);
    run.step(Report::Started);
    assert_eq!(
        run.step(Report::Received(u32::MAX as usize - 1)),
        Some(downloading("Hack", u32::MAX - 1, 10))
    );
    assert_eq!(run.step(Report::Received(1)), Some(downloading("Hack", u32::MAX, 10)));
    assert_eq!(run.step(Report::Received(5)), Some(downloading("Hack", u32::MAX, 10)));
    assert_eq!(run.step(Report::Received(usize::MAX)), Some(downloading("Hack", u32::MAX, 10)));
    assert_eq!(run.step(Report::Received(0)), Some(downloading("Hack", u32::MAX, 10)));
}

#[test]
fn the_count_starts_anew_for_each_bundle() {
    let mut run = InstallRun::new(vec![bundle("Hack", 10), bundle("Agave", 20)]);
    play(&mut run, vec![Report::Started, Report::Received(10), Report::Downloaded]);
    assert_eq!(run.step(Report::Installed), Some(downloading("Agave", 0, 20)));
    assert_eq!(run.step(Report::Received(4)), Some(downloading("Agave", 4, 20)));
}

#[test]
fn reports_out_of_turn_are_passed_over() {
    let mut run = InstallRun::new(vec![bundle("Hack", 10)]);
    assert_eq!(run.step(Report::Received(3)), None);
    assert_eq!(run.step(Report::Downloaded), None);
    assert_eq!(run.step(Report::Installed), None);
    assert_eq!(run.step(Report::Failed(transport("early"))), None);
    assert_eq!(run.phase(), Phase::Idle);
    assert_eq!(run.step(Report::Started), Some(downloading("Hack", 0, 10)));
    assert_eq!(run.step(Report::Started), None);
    assert_eq!(run.step(Report::Installed), None);
    assert_eq!(run.phase(), Phase::Downloading(0));
    assert_eq!(run.step(Report::Downloaded), Some(installing("Hack")));
    assert_eq!(run.step(Report::Received(3)), None);
    assert_eq!(run.step(Report::Downloaded), None);
    assert_eq!(run.phase(), Phase::Installing(0));
}

#[test]
fn the_phase_moves_forward_bundle_by_bundle() {
    let mut run = InstallRun::new(vec![bundle("Hack", 1), bundle("Agave", 2)]);
    let mut phases = vec![run.phase()];
    for report in [
        Report::Started,
        Report::Received(1),
        Report::Downloaded,
        Report::Installed,
        Report::Downloaded,
        Report::Installed,
    ] {
        run.step(report);
        phases.push(run.phase());
    }
    assert_eq!(
        phases,
        vec![
            Phase::Idle,
            Phase::Downloading(0),
            Phase::Downloading(0),
            Phase::Installing(0),
            Phase::Downloading(1),
            Phase::Installing(1),
            Phase::Done,
        ]
    );
}

#[test]
fn current_is_the_bundle_at_hand() {
    let first = bundle("Hack", 1);
    let second = bundle("Agave", 2);
    let mut run = InstallRun::new(vec![first.clone(), second.clone()]);
    run.step(Report::Started);
    assert_eq!(run.current(), Some(&first));
    run.step(Report::Downloaded);
    assert_eq!(run.current(), Some(&first));
    run.step(Report::Installed);
    assert_eq!(run.current(), Some(&second));
    run.step(Report::Downloaded);
    run.step(Report::Installed);
    assert_eq!(run.current(), None);
}

#[test]
fn a_bundle_without_the_suffix_is_shown_by_its_whole_name() {
    let asset = ReleaseAsset {
        name: "Hack.zip".to_string(),
        browser_download_url: String::new(),
        size: 4,
    };
    let mut run = InstallRun::new(vec![asset]);
    assert_eq!(run.step(Report::Started), Some(downloading("Hack.zip", 0, 4)));
    assert_eq!(run.step(Report::Downloaded), Some(installing("Hack.zip")));
}

#[test]
fn the_batch_is_taken_in_its_own_order() {
    let mut run =
        InstallRun::new(vec![bundle("Zed", 1), bundle("agave", 1), bundle("Hack", 1)]);
    let mut reports = vec![Report::Started];
    for _ in 0..3 {
        reports.push(Report::Downloaded);
        reports.push(Report::Installed);
    }
    let installs: Vec<ProgressEvent> = play(&mut run, reports)
        .into_iter()
        .filter(|e| matches!(e, ProgressEvent::Installing(_)))
        .collect();
    assert_eq!(installs, vec![installing("Zed"), installing("agave"), installing("Hack")]);
}

#[test]
fn every_error_has_its_message() {
    assert_eq!(DownloadError::Transport("no route".to_string()).message(), "no route");
    assert_eq!(DownloadError::Read("broken pipe".to_string()).message(), "broken pipe");
    assert_eq!(ExtractError::InvalidArchive("corrupt".to_string()).message(), "corrupt");
    assert_eq!(
        ExtractError::MissingFileName.message(),
        "encountered archive entry without filename"
    );
    assert_eq!(ExtractError::Write("disk full".to_string()).message(), "disk full");
    assert_eq!(
        InstallError::Download(DownloadError::Read("eof".to_string())).message(),
        "eof"
    );
    assert_eq!(
        InstallError::Extract(ExtractError::Write("denied".to_string())).message(),
        "denied"
    );
}
