use repowatch::event::{on_tick, KeyInput, LoopAction, QUIT_KEY};
use repowatch::render::{push_decimal, render_row, render_rows, status_glyph};
use repowatch::scan::{select_directories, DirListing};
use repowatch::status::{GitStatus, ProjectStatus};
use repowatch::store::ProjectEntry;

fn entry(path: &str, status: ProjectStatus) -> ProjectEntry {
    ProjectEntry { path: path.to_string(), status }
}

#[test]
fn glyphs_of_each_status() {
    assert_eq!(status_glyph(&ProjectStatus::Unchecked), "Unchecked");
    assert_eq!(status_glyph(&ProjectStatus::Waiting), "\u{2026}");
    assert_eq!(status_glyph(&ProjectStatus::Complete(GitStatus::UpToDate)), "\u{2713}");
    assert_eq!(status_glyph(&ProjectStatus::Complete(GitStatus::LocalBehind(3))), "\u{2193}3");
    assert_eq!(status_glyph(&ProjectStatus::Complete(GitStatus::RemoteBehind(12))), "\u{2191}12");
    assert_eq!(status_glyph(&ProjectStatus::Failed), "\u{2717}");
}

#[test]
fn decimal_digits_are_exact() {
    let cases: Vec<(u32, &str)> = vec![
        (0, "0"),
        (7, "7"),
        (9, "9"),
        (10, "10"),
        (105, "105"),
        (1234567890, "1234567890"),
        (4294967295, "4294967295"),
    ];
    for (n, text) in cases {
        let mut s = String::from("n=");
        push_decimal(&mut s, n);
        assert_eq!(s, format!("n={}", text));
    }
}

#[test]
fn row_is_path_space_glyph() {
    assert_eq!(render_row(&entry("/r/A", ProjectStatus::Unchecked)), "/r/A Unchecked");
    assert_eq!(
        render_row(&entry("/r/B", ProjectStatus::Complete(GitStatus::LocalBehind(3)))),
        "/r/B \u{2193}3"
    );
    assert_eq!(render_row(&entry("", ProjectStatus::Failed)), " \u{2717}");
}

#[test]
fn rows_follow_the_snapshot() {
    let snapshot = vec![
        entry("b", ProjectStatus::Waiting),
        entry("a", ProjectStatus::Complete(GitStatus::UpToDate)),
        entry("c", ProjectStatus::Complete(GitStatus::RemoteBehind(40))),
    ];
    assert_eq!(
        render_rows(&snapshot),
        vec!["b \u{2026}".to_string(), "a \u{2713}".to_string(), "c \u{2191}40".to_string()]
    );
    assert!(render_rows(&Vec::new()).is_empty());
}

#[test]
fn quit_key_ends_the_loop() {
    let press = KeyInput { pressed: true, character: Some('q') };
    assert_eq!(QUIT_KEY, 'q');
    assert_eq!(on_tick(Some(press)), LoopAction::Quit);
}

#[test]
fn other_input_redraws() {
    assert_eq!(on_tick(None), LoopAction::Redraw);
    assert_eq!(
        on_tick(Some(KeyInput { pressed: false, character: Some('q') })),
        LoopAction::Redraw
    );
    assert_eq!(
        on_tick(Some(KeyInput { pressed: true, character: Some('Q') })),
        LoopAction::Redraw
    );
    assert_eq!(on_tick(Some(KeyInput { pressed: true, character: None })), LoopAction::Redraw);
    assert_eq!(
        on_tick(Some(KeyInput { pressed: true, character: Some('x') })),
        LoopAction::Redraw
    );
}

#[test]
fn only_directories_are_selected() {
    let listing = vec![
        DirListing { path: "/r/b".to_string(), is_dir: true },
        DirListing { path: "/r/notes.txt".to_string(), is_dir: false },
        DirListing { path: "/r/a".to_string(), is_dir: true },
        DirListing { path: "/r/link".to_string(), is_dir: false },
    ];
    assert_eq!(select_directories(&listing), vec!["/r/b".to_string(), "/r/a".to_string()]);
    assert!(select_directories(&Vec::new()).is_empty());
}
