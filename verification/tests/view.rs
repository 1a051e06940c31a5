use gibfonts::progress::ProgressEvent;
use gibfonts::view::{BarState, ProgressView};

fn download(done: u32, total: u32) -> ProgressEvent {
    ProgressEvent::Downloading { name: "Hack".to_string(), done, total }
}

#[test]
fn a_view_starts_empty_and_locked() {
    assert_eq!(
        ProgressView::start(3),
        ProgressView {
            download_pos: 0,
            download_end: 0,
            main_pos: 0,
            main_end: 3,
            main_state: BarState::Normal,
            controls_enabled: false,
        }
    );
}

#[test]
fn a_download_fills_its_bar() {
    let mut view = ProgressView::start(2);
    view.apply(&download(0, 40));
    assert_eq!((view.download_pos, view.download_end), (0, 40));
    view.apply(&download(25, 40));
    assert_eq!((view.download_pos, view.download_end), (25, 40));
    view.apply(&download(40, 40));
    assert_eq!((view.download_pos, view.download_end), (40, 40));
    assert_eq!(view.main_pos, 0);
    assert!(!view.controls_enabled);
}

#[test]
fn a_download_bar_is_never_filled_beyond_its_end() {
    let mut view = ProgressView::start(1);
    view.apply(&download(50, 40));
    assert_eq!((view.download_pos, view.download_end), (40, 40));
    view.apply(&download(u32::MAX, 0));
    assert_eq!((view.download_pos, view.download_end), (0, 0));
}

#[test]
fn installing_fills_the_download_bar_and_steps_the_other() {
    let mut view = ProgressView::start(2);
    view.apply(&download(10, 40));
    view.apply(&ProgressEvent::Installing("Hack".to_string()));
    assert_eq!((view.download_pos, view.download_end), (40, 40));
    assert_eq!((view.main_pos, view.main_end), (1, 2));
    view.apply(&ProgressEvent::Installing("Agave".to_string()));
    assert_eq!((view.main_pos, view.main_end), (2, 2));
    view.apply(&ProgressEvent::Installing("Ubuntu".to_string()));
    assert_eq!((view.main_pos, view.main_end), (2, 2));
    assert!(!view.controls_enabled);
}

#[test]
fn an_error_marks_the_bar_and_gives_the_controls_back() {
    let mut view = ProgressView::start(2);
    view.apply(&download(10, 40));
    view.apply(&ProgressEvent::Error("connection reset".to_string()));
    assert_eq!(view.main_state, BarState::Error);
    assert!(view.controls_enabled);
    assert_eq!((view.download_pos, view.download_end), (10, 40));
    assert_eq!((view.main_pos, view.main_end), (0, 2));
}

#[test]
fn the_end_fills_both_bars_and_gives_the_controls_back() {
    let mut view = ProgressView::start(1);
    view.apply(&download(10, 40));
    view.apply(&ProgressEvent::Installing("Hack".to_string()));
    view.apply(&ProgressEvent::Finished);
    assert_eq!(
        view,
        ProgressView {
            download_pos: 40,
            download_end: 40,
            main_pos: 1,
            main_end: 1,
            main_state: BarState::Normal,
            controls_enabled: true,
        }
    );
}

#[test]
fn the_bar_of_the_batch_holds_no_more_than_a_u32() {
    assert_eq!(ProgressView::start(0).main_end, 0);
    assert_eq!(ProgressView::start(u32::MAX as usize).main_end, u32::MAX);
    assert_eq!(ProgressView::start(usize::MAX).main_end, u32::MAX);
}
