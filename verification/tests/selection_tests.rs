use palawan_installer::selection::{
    browser_choices, coding_agent_choices, editor_choices, flags_for_npm_selection,
    flags_for_selection, labels_for_npm_selection, labels_for_selection, selection_from_flags,
    selection_from_flags_for, selection_from_flags_for_npm, terminal_choices, InstallChoice,
    NpmChoice, NpmSelection, PackageSelection,
};

fn strs(v: &[&str]) -> Vec<String> {
    v.iter().map(|s| s.to_string()).collect()
}

fn choice(label: &str, pacman: &[&str], yay: &[&str]) -> InstallChoice {
    InstallChoice { label: label.to_string(), pacman: strs(pacman), yay: strs(yay) }
}

#[test]
fn browser_flags_build_selection() {
    let sel = selection_from_flags(&[true, false, true, false, false, true]);
    assert_eq!(sel.pacman, strs(&["firefox", "firefox-ublock-origin"]));
    assert_eq!(sel.yay, strs(&["ungoogled-chromium-bin", "librewolf-bin"]));
    assert!(!sel.is_empty());
}

#[test]
fn browser_flags_roundtrip() {
    let choices = browser_choices();
    let flags = vec![false, true, false, true, true, false];
    let sel = selection_from_flags_for(&flags, &choices);
    assert_eq!(flags_for_selection(&sel, &choices), flags);
    assert_eq!(labels_for_selection(&sel, &choices), strs(&["Chromium", "Brave", "Zen Browser"]));
}

#[test]
fn tables_roundtrip_every_single_flag() {
    for choices in [browser_choices(), terminal_choices(), editor_choices()] {
        for i in 0..choices.len() {
            let mut flags = vec![false; choices.len()];
            flags[i] = true;
            let sel = selection_from_flags_for(&flags, &choices);
            assert_eq!(flags_for_selection(&sel, &choices), flags);
            assert_eq!(labels_for_selection(&sel, &choices), vec![choices[i].label.clone()]);
        }
    }
}

#[test]
fn no_flags_give_empty_selection() {
    let sel = selection_from_flags(&[false; 6]);
    assert!(sel.is_empty());
    assert!(labels_for_selection(&sel, &browser_choices()).is_empty());
    assert_eq!(flags_for_selection(&sel, &browser_choices()), vec![false; 6]);
    assert!(PackageSelection::default().is_empty());
    assert!(NpmSelection::default().is_empty());
}

#[test]
fn shared_packages_are_added_once() {
    let choices = vec![
        choice("A", &["mesa", "a"], &[]),
        choice("B", &["mesa", "b"], &["b-bin"]),
        choice("C", &[], &["b-bin"]),
    ];
    let sel = selection_from_flags_for(&[true, true, true], &choices);
    assert_eq!(sel.pacman, strs(&["mesa", "a", "b"]));
    assert_eq!(sel.yay, strs(&["b-bin"]));
}

#[test]
fn overlapping_choice_reads_back_as_selected() {
    // C's only package comes with B, so C reads back as selected too.
    let choices = vec![choice("B", &["b"], &["b-bin"]), choice("C", &[], &["b-bin"])];
    let sel = selection_from_flags_for(&[true, false], &choices);
    assert_eq!(flags_for_selection(&sel, &choices), vec![true, true]);
}

#[test]
fn empty_choice_is_never_selected() {
    let choices = vec![choice("Nothing", &[], &[])];
    let sel = selection_from_flags_for(&[true], &choices);
    assert!(sel.is_empty());
    assert_eq!(flags_for_selection(&sel, &choices), vec![false]);
    assert!(labels_for_selection(&sel, &choices).is_empty());
}

#[test]
fn extra_flags_or_choices_are_ignored() {
    let choices = terminal_choices();
    let sel = selection_from_flags_for(&[true], &choices);
    assert_eq!(sel.pacman, strs(&["ghostty"]));
    let sel = selection_from_flags_for(&[false, false, true, true, true], &choices);
    assert_eq!(sel.pacman, strs(&["alacritty"]));
}

#[test]
fn editor_selection_mixes_sources() {
    let choices = editor_choices();
    let sel = selection_from_flags_for(&[true, true, false, false, true], &choices);
    assert_eq!(sel.pacman, strs(&["zed"]));
    assert_eq!(sel.yay, strs(&["cursor-bin", "sublime-text-4"]));
    assert_eq!(labels_for_selection(&sel, &choices), strs(&["Zed", "Cursor", "Sublime Text 4"]));
}

#[test]
fn npm_flags_roundtrip() {
    let choices = coding_agent_choices();
    let sel = selection_from_flags_for_npm(&[false, true], &choices);
    assert_eq!(sel.packages, strs(&["@google/gemini-cli"]));
    assert_eq!(flags_for_npm_selection(&sel, &choices), vec![false, true]);
    assert_eq!(labels_for_npm_selection(&sel, &choices), strs(&["Gemini"]));
    let both = selection_from_flags_for_npm(&[true, true], &choices);
    assert_eq!(both.packages, strs(&["@openai/codex", "@google/gemini-cli"]));
    let none = selection_from_flags_for_npm(&[false, false], &choices);
    assert!(none.is_empty());
}

#[test]
fn npm_choice_without_packages_counts_as_selected() {
    let choices = vec![NpmChoice { label: "Empty".to_string(), packages: vec![] }];
    let sel = NpmSelection::default();
    assert_eq!(flags_for_npm_selection(&sel, &choices), vec![true]);
    assert_eq!(labels_for_npm_selection(&sel, &choices), strs(&["Empty"]));
}

#[test]
fn selection_from_manual_lists() {
    let sel = PackageSelection { pacman: strs(&["kitty"]), yay: vec![] };
    assert_eq!(flags_for_selection(&sel, &terminal_choices()), vec![false, true, false]);
    let sel = PackageSelection { pacman: strs(&["firefox"]), yay: vec![] };
    // Firefox needs both of its packages.
    assert_eq!(flags_for_selection(&sel, &browser_choices())[0], false);
}
