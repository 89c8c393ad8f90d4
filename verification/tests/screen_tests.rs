use std::collections::VecDeque;

use palawan_installer::lists::extend_unique;
use palawan_installer::model::{handle_event, push_log, App, InstallerEvent, Progress, Step, StepStatus, LOG_CAPACITY};
use palawan_installer::text::{join, lines_of, string_of};
use palawan_installer::ui::{
    choice_row_prefix, decimal, format_labels, initial_logs, install_step_names,
    review_items, selection_marker, selector_list_title, source_part_text, source_parts, spinner_frame, status_message, status_tone,
    step_icon, step_line, PickerOutcome, PickerState, SelectorKey, SelectorOutcome, SelectorState,
    SourcePart, StatusTone,
};

fn strs(v: &[&str]) -> Vec<String> {
    v.iter().map(|s| s.to_string()).collect()
}

#[test]
fn log_is_bounded() {
    let mut logs: VecDeque<String> = VecDeque::new();
    for i in 0..(LOG_CAPACITY + 5) {
        push_log(&mut logs, format!("line {}", i));
    }
    assert_eq!(logs.len(), LOG_CAPACITY);
    assert_eq!(logs.front().unwrap(), "line 5");
    assert_eq!(logs.back().unwrap(), &format!("line {}", LOG_CAPACITY + 4));
}

#[test]
fn events_update_the_screen() {
    let mut app = App::new(&strs(&["a", "b"]), VecDeque::new());
    assert_eq!(app.steps[0], Step { name: "a".to_string(), status: StepStatus::Pending, err: None });
    handle_event(&mut app, InstallerEvent::Step { index: 1, status: StepStatus::Failed, err: Some("boom".to_string()) });
    assert_eq!(app.steps[1], Step { name: "b".to_string(), status: StepStatus::Failed, err: Some("boom".to_string()) });
    handle_event(&mut app, InstallerEvent::Step { index: 9, status: StepStatus::Done, err: None });
    assert_eq!(app.steps.len(), 2);
    handle_event(&mut app, InstallerEvent::Progress(Progress { steps_done: 3, done: 1, out_of: 2 }));
    assert_eq!(app.progress, Progress { steps_done: 3, done: 1, out_of: 2 });
    handle_event(&mut app, InstallerEvent::Log("hello".to_string()));
    assert_eq!(app.logs.back().unwrap(), "hello");
    handle_event(&mut app, InstallerEvent::NeedSudo);
    assert!(!app.done);
    handle_event(&mut app, InstallerEvent::Done(Some("bad".to_string())));
    assert!(app.done);
    assert_eq!(app.err, Some("bad".to_string()));
}

#[test]
fn spinner_wraps() {
    let mut app = App::new(&vec![], VecDeque::new());
    for _ in 0..3 {
        app.advance_spinner();
    }
    assert_eq!(app.spinner_idx, 3);
    app.advance_spinner();
    assert_eq!(app.spinner_idx, 0);
    assert_eq!(spinner_frame(0), "|");
    assert_eq!(spinner_frame(3), "\\");
}

#[test]
fn selector_keys() {
    let mut s = SelectorState::new(3, None);
    assert_eq!(s.handle_key(SelectorKey::Up), SelectorOutcome::Continue);
    assert_eq!(s.cursor, 0);
    s.handle_key(SelectorKey::Down);
    s.handle_key(SelectorKey::Down);
    s.handle_key(SelectorKey::Down);
    assert_eq!(s.cursor, 2);
    s.handle_key(SelectorKey::Toggle);
    assert_eq!(s.selected, vec![false, false, true]);
    s.handle_key(SelectorKey::Digit(1));
    assert_eq!(s.cursor, 0);
    assert_eq!(s.selected, vec![true, false, true]);
    s.handle_key(SelectorKey::Digit(4));
    s.handle_key(SelectorKey::Digit(0));
    assert_eq!(s.selected, vec![true, false, true]);
    assert_eq!(s.selected_count(), 2);
    assert_eq!(s.handle_key(SelectorKey::Enter), SelectorOutcome::Confirm(vec![true, false, true]));
    assert_eq!(s.handle_key(SelectorKey::Skip), SelectorOutcome::SkipAll);
    assert_eq!(s.handle_key(SelectorKey::Quit), SelectorOutcome::Quit);
    let s = SelectorState::new(3, Some(&[false, true]));
    assert_eq!(s.selected, vec![false, true, false]);
}

#[test]
fn picker_keys() {
    let mut p = PickerState::new(3);
    assert_eq!(p.handle_key(SelectorKey::Down), PickerOutcome::Continue);
    assert_eq!(p.handle_key(SelectorKey::Enter), PickerOutcome::Pick(1));
    p.handle_key(SelectorKey::Down);
    p.handle_key(SelectorKey::Down);
    assert_eq!(p.cursor, 2);
    assert_eq!(p.handle_key(SelectorKey::Quit), PickerOutcome::Quit);
    let mut empty = PickerState::new(0);
    assert_eq!(empty.handle_key(SelectorKey::Enter), PickerOutcome::Continue);
}

#[test]
fn selector_texts() {
    assert_eq!(decimal(0), "0");
    assert_eq!(decimal(1207), "1207");
    assert_eq!(selector_list_title("Browsers", 0), "Browsers (0 selected - Enter skips)");
    assert_eq!(selector_list_title("Browsers", 12), "Browsers (12 selected)");
    assert_eq!(choice_row_prefix(0), " 1) ");
    assert_eq!(choice_row_prefix(9), "10) ");
    assert_eq!(choice_row_prefix(122), "123) ");
    assert_eq!(selection_marker(true), "[x]");
    assert_eq!(selection_marker(false), "[ ]");
}

#[test]
fn step_rows_and_status() {
    assert_eq!(step_icon(StepStatus::Skipped), "[SKIP]");
    let row = step_line(&Step { name: "Installing yay".to_string(), status: StepStatus::Running, err: None }, 1);
    assert_eq!(row.text, "[..] Installing yay");
    assert_eq!(row.spinner, Some(" /".to_string()));
    assert_eq!(row.err, None);
    let row = step_line(&Step { name: "X".to_string(), status: StepStatus::Failed, err: Some("e".to_string()) }, 0);
    assert_eq!(row.text, "[x] X");
    assert_eq!(row.spinner, None);
    assert_eq!(row.err, Some(" (e)".to_string()));
    assert_eq!(status_message(false, true), "Press q to quit.");
    assert_eq!(status_message(true, true), "Installation failed. Press q to quit.");
    assert_eq!(status_message(true, false), "Installation complete. Press q to quit.");
    assert_eq!(status_tone(false, true), StatusTone::Failed);
    assert_eq!(status_tone(true, false), StatusTone::Complete);
    assert_eq!(status_tone(false, false), StatusTone::Working);
}

#[test]
fn review_and_names() {
    assert_eq!(format_labels(&vec![]), "None");
    assert_eq!(format_labels(&strs(&["A", "B"])), "A, B");
    let items = review_items(&strs(&["Firefox"]), &vec![], &strs(&["Zed", "Cursor"]), true, &vec![]);
    let pairs: Vec<(String, String)> = items.into_iter().map(|i| (i.label, i.value)).collect();
    assert_eq!(
        pairs,
        vec![
            ("Web browsers".to_string(), "Firefox".to_string()),
            ("Terminals".to_string(), "None".to_string()),
            ("Editors".to_string(), "Zed, Cursor".to_string()),
            ("Install nvm".to_string(), "Yes".to_string()),
            ("Coding agents".to_string(), "None".to_string()),
        ]
    );
    let names = install_step_names(&strs(&["Firefox", "Brave"]), &vec![], &strs(&["Zed"]));
    assert_eq!(names.len(), 8);
    assert_eq!(names[1], "Installing Hyprland packages");
    assert_eq!(names[3], "Installing Firefox, Brave");
    assert_eq!(names[4], "Installing terminals");
    assert_eq!(names[5], "Installing Zed");
    let logs = initial_logs(true, Some("Detected GPU: AMD".to_string()));
    assert_eq!(Vec::from(logs), strs(&["Starting Palawan installer...", "Sudo verified.", "Detected GPU: AMD"]));
    assert_eq!(Vec::from(initial_logs(false, None)), strs(&["Starting Palawan installer..."]));
}

#[test]
fn text_helpers() {
    assert_eq!(lines_of("a\r\nb\n\nc"), strs(&["a", "b", "", "c"]));
    assert_eq!(lines_of(""), Vec::<String>::new());
    assert_eq!(lines_of("x\r"), strs(&["x\r"]));
    assert_eq!(join(&strs(&["a", "b", "c"]), "-"), "a-b-c");
    assert_eq!(string_of(&vec!['h', 'i']), "hi");
}

#[test]
fn extend_unique_keeps_first_places() {
    let mut v = strs(&["a", "b"]);
    extend_unique(&mut v, &strs(&["b", "c", "a", "c", "d"]));
    assert_eq!(v, strs(&["a", "b", "c", "d"]));
    let before = v.clone();
    extend_unique(&mut v, &strs(&["b", "c", "a", "c", "d"]));
    assert_eq!(v, before);
}

fn source_tag(has_pacman: bool, has_yay: bool) -> String {
    source_parts(has_pacman, has_yay).into_iter().map(source_part_text).collect()
}

#[test]
fn source_tags() {
    assert_eq!(source_parts(true, false), vec![SourcePart::Open, SourcePart::Pacman, SourcePart::Close]);
    assert_eq!(source_tag(true, false), "(pacman)");
    assert_eq!(source_tag(false, true), "(AUR)");
    assert_eq!(source_tag(true, true), "(pacman + AUR)");
    assert_eq!(source_tag(false, false), "()");
}
