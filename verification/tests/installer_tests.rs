use palawan_installer::installer::{
    base_step_work, browsers_step_work, build_pacman_args, build_yay_args, editors_step_work,
    nvm_rc_create_log, nvm_rc_update, nvm_shell_command, nvm_step_work, parse_pacman_install,
    step_names, terminals_step_work, yay_plan, yay_user_check, InstallerRun, ProgressTracker,
    RunAction, StepWork, hyprland_step_work, yay_after_probe, STEP_HYPRLAND, STEP_YAY,
};
use palawan_installer::model::{InstallerEvent, Progress, StepStatus};
use palawan_installer::selection::PackageSelection;

fn strs(v: &[&str]) -> Vec<String> {
    v.iter().map(|s| s.to_string()).collect()
}

fn sel(pacman: &[&str], yay: &[&str]) -> PackageSelection {
    PackageSelection { pacman: strs(pacman), yay: strs(yay) }
}

fn step(index: usize, status: StepStatus) -> InstallerEvent {
    InstallerEvent::Step { index, status, err: None }
}

fn whole(k: usize) -> InstallerEvent {
    InstallerEvent::Progress(Progress { steps_done: k, done: 0, out_of: 1 })
}

#[test]
fn command_arguments() {
    assert_eq!(
        build_pacman_args(&strs(&["git", "vim"])),
        strs(&["pacman", "-S", "--noconfirm", "--needed", "--noprogressbar", "git", "vim"])
    );
    assert_eq!(build_yay_args(&strs(&["nvm"])), strs(&["-S", "--noconfirm", "--needed", "nvm"]));
    assert_eq!(build_yay_args(&vec![]), strs(&["-S", "--noconfirm", "--needed"]));
}

#[test]
fn pacman_install_lines() {
    assert_eq!(parse_pacman_install("installing firefox..."), Some("firefox".to_string()));
    assert_eq!(parse_pacman_install("  Installing git (2.45.0-1)...  "), Some("git".to_string()));
    assert_eq!(parse_pacman_install("INSTALLING   mesa. "), Some("mesa".to_string()));
    assert_eq!(parse_pacman_install("installing ..."), Some("".to_string()));
    assert_eq!(parse_pacman_install("installing   "), None);
    assert_eq!(parse_pacman_install("installing"), None);
    assert_eq!(parse_pacman_install("upgrading firefox..."), None);
    assert_eq!(parse_pacman_install("reinstalling firefox..."), None);
}

#[test]
fn tracker_counts_each_package_once() {
    let mut t = ProgressTracker::new(&strs(&["git", "vim", "git"]), 0);
    let o = t.observe_line("installing vim...");
    assert!(o.log);
    assert_eq!(o.progress, Some(Progress { steps_done: 0, done: 1, out_of: 3 }));
    let o = t.observe_line("installing vim...");
    assert!(o.log);
    assert_eq!(o.progress, None);
    let o = t.observe_line("installing emacs...");
    assert_eq!(o.progress, None);
    let o = t.observe_line("installing git...");
    assert_eq!(o.progress, Some(Progress { steps_done: 0, done: 2, out_of: 3 }));
    let o = t.observe_line("   ");
    assert!(!o.log);
    assert_eq!(o.progress, None);
    let o = t.observe_line(":: Processing package changes...");
    assert!(o.log);
    assert_eq!(o.progress, None);
}

#[test]
fn tracker_for_selection() {
    let s = sel(&["firefox"], &["brave-bin"]);
    let mut t = ProgressTracker::for_selection(&s, true, 2);
    assert_eq!(t.observe_line("installing brave-bin...").progress, Some(Progress { steps_done: 2, done: 1, out_of: 2 }));
    let mut t = ProgressTracker::for_selection(&s, false, 3);
    assert_eq!(t.observe_line("installing brave-bin...").progress, None);
    assert_eq!(t.observe_line("installing firefox...").progress, Some(Progress { steps_done: 3, done: 1, out_of: 1 }));
}

#[test]
fn successful_run_events() {
    let empty = PackageSelection::default();
    let some = sel(&["kitty"], &[]);
    let mut run = InstallerRun::new(&some, &empty, &some, false);
    let (ev, act) = run.begin();
    assert_eq!(ev, vec![step(0, StepStatus::Running)]);
    assert_eq!(act, RunAction::Perform(0));
    let (ev, act) = run.complete(Ok(()));
    assert_eq!(ev, vec![step(0, StepStatus::Done), whole(1), step(1, StepStatus::Running)]);
    assert_eq!(act, RunAction::Perform(1));
    let (ev, _) = run.complete(Ok(()));
    assert_eq!(ev, vec![whole(2), step(1, StepStatus::Done), step(2, StepStatus::Running)]);
    let (ev, _) = run.complete(Ok(()));
    assert_eq!(ev, vec![whole(3), step(2, StepStatus::Done), step(3, StepStatus::Running)]);
    let (ev, _) = run.complete(Ok(()));
    assert_eq!(ev, vec![whole(4), step(3, StepStatus::Done), step(4, StepStatus::Running)]);
    let (ev, _) = run.complete(Ok(()));
    assert_eq!(ev, vec![whole(5), step(4, StepStatus::Skipped), step(5, StepStatus::Running)]);
    let (ev, _) = run.complete(Ok(()));
    assert_eq!(ev, vec![whole(6), step(5, StepStatus::Done), step(6, StepStatus::Running)]);
    let (ev, act) = run.complete(Ok(()));
    assert_eq!(
        ev,
        vec![
            whole(7),
            step(6, StepStatus::Skipped),
            step(7, StepStatus::Running),
            InstallerEvent::Log("Finalizing...".to_string())
        ]
    );
    assert_eq!(act, RunAction::Perform(7));
    let (ev, act) = run.complete(Ok(()));
    assert_eq!(ev, vec![step(7, StepStatus::Done), whole(8), InstallerEvent::Done(None)]);
    assert_eq!(act, RunAction::Finish);
    let (ev, act) = run.complete(Ok(()));
    assert!(ev.is_empty());
    assert_eq!(act, RunAction::Finish);
}

#[test]
fn failed_run_events() {
    let empty = PackageSelection::default();
    let mut run = InstallerRun::new(&empty, &empty, &empty, true);
    run.begin();
    run.complete(Ok(()));
    run.complete(Ok(()));
    let (ev, act) = run.complete(Err("yay install must run as a non-root user".to_string()));
    assert_eq!(
        ev,
        vec![InstallerEvent::Step {
            index: STEP_YAY,
            status: StepStatus::Failed,
            err: Some("yay install must run as a non-root user".to_string())
        }]
    );
    assert_eq!(act, RunAction::Finish);
    let (ev, act) = run.complete(Ok(()));
    assert!(ev.is_empty());
    assert_eq!(act, RunAction::Finish);
}

#[test]
fn aborted_run_reports_nothing_more() {
    let empty = PackageSelection::default();
    let mut run = InstallerRun::new(&empty, &empty, &empty, false);
    run.begin();
    assert_eq!(run.abort(), RunAction::Finish);
    let (ev, act) = run.complete(Ok(()));
    assert!(ev.is_empty());
    assert_eq!(act, RunAction::Finish);
}

#[test]
fn hyprland_work() {
    match hyprland_step_work(&strs(&["hyprland", "waybar"])) {
        StepWork::Install { logs, commands, mut tracker } => {
            assert_eq!(logs, strs(&["Installing Hyprland packages..."]));
            assert_eq!(commands.len(), 1);
            assert_eq!(commands[0].program, "sudo");
            assert_eq!(commands[0].args, build_pacman_args(&strs(&["hyprland", "waybar"])));
            assert_eq!(
                tracker.observe_line("installing waybar...").progress,
                Some(Progress { steps_done: STEP_HYPRLAND, done: 1, out_of: 2 })
            );
        }
        StepWork::Skip(_) => panic!("the Hyprland step is never skipped"),
    }
}

#[test]
fn yay_after_the_probe() {
    let p = yay_plan();
    let (log, commands) = yay_after_probe(&p, true);
    assert_eq!(log, "yay is already installed, skipping.");
    assert!(commands.is_empty());
    let (log, commands) = yay_after_probe(&p, false);
    assert_eq!(log, "yay not found, installing...");
    assert_eq!(commands.len(), 2);
    assert_eq!(commands[0].program, "git");
    assert_eq!(commands[0].args, strs(&["clone", "https://aur.archlinux.org/yay-bin.git", "/tmp/yay-bin"]));
    assert_eq!(commands[1].program, "makepkg");
    assert_eq!(commands[1].args, strs(&["-si", "--noconfirm", "--needed", "--syncdeps"]));
    assert_eq!(commands[1].cwd, Some("/tmp/yay-bin".to_string()));
}

#[test]
fn names_of_steps() {
    assert_eq!(
        step_names(),
        strs(&[
            "Installing base packages",
            "Installing Hyprland packages",
            "Installing yay",
            "Installing web browsers",
            "Installing terminals",
            "Installing editors",
            "Installing nvm",
            "Finalizing"
        ])
    );
}

#[test]
fn base_work() {
    match base_step_work(&strs(&["git", "vim"])) {
        StepWork::Install { logs, commands, mut tracker } => {
            assert_eq!(logs, strs(&["Installing base packages...", "Packages: git, vim"]));
            assert_eq!(commands.len(), 1);
            assert_eq!(commands[0].program, "sudo");
            assert_eq!(commands[0].args, build_pacman_args(&strs(&["git", "vim"])));
            assert_eq!(commands[0].cwd, None);
            assert_eq!(tracker.observe_line("installing git...").progress, Some(Progress { steps_done: 0, done: 1, out_of: 2 }));
        }
        StepWork::Skip(_) => panic!("base step is never skipped"),
    }
}

#[test]
fn selection_works() {
    match browsers_step_work(&PackageSelection::default()) {
        StepWork::Skip(log) => assert_eq!(log, "Skipping browser install."),
        _ => panic!("expected skip"),
    }
    match terminals_step_work(&PackageSelection::default()) {
        StepWork::Skip(log) => assert_eq!(log, "Skipping terminal install."),
        _ => panic!("expected skip"),
    }
    match editors_step_work(&sel(&[], &["cursor-bin"])) {
        StepWork::Install { logs, commands, .. } => {
            assert_eq!(logs, strs(&["Installing editors..."]));
            assert_eq!(commands.len(), 1);
            assert_eq!(commands[0].program, "yay");
            assert_eq!(commands[0].args, strs(&["-S", "--noconfirm", "--needed", "cursor-bin"]));
        }
        _ => panic!("expected install"),
    }
    match browsers_step_work(&sel(&["firefox"], &["brave-bin"])) {
        StepWork::Install { logs, commands, .. } => {
            assert_eq!(logs, strs(&["Installing web browsers..."]));
            assert_eq!(commands.len(), 2);
            assert_eq!(commands[0].program, "sudo");
            assert_eq!(commands[1].program, "yay");
        }
        _ => panic!("expected install"),
    }
    // Terminals install repository packages only.
    match terminals_step_work(&sel(&[], &["x-bin"])) {
        StepWork::Install { logs, commands, .. } => {
            assert_eq!(logs, strs(&["Installing terminals..."]));
            assert!(commands.is_empty());
        }
        _ => panic!("expected install"),
    }
}

#[test]
fn yay_steps() {
    let p = yay_plan();
    assert_eq!(p.start_log, "Installing yay (AUR helper)...");
    assert_eq!(p.dependencies.program, "sudo");
    assert_eq!(p.dependencies.args, build_pacman_args(&strs(&["git", "base-devel"])));
    assert_eq!(p.probe.program, "yay");
    assert_eq!(p.probe.args, strs(&["--version"]));
    assert_eq!(p.build_dir, "/tmp/yay-bin");
    assert_eq!(p.clone.args, strs(&["clone", "https://aur.archlinux.org/yay-bin.git", "/tmp/yay-bin"]));
    assert_eq!(p.build.program, "makepkg");
    assert_eq!(p.build.cwd, Some("/tmp/yay-bin".to_string()));
    assert!(yay_user_check(Some("alice"), false).is_ok());
    assert!(yay_user_check(None, false).is_ok());
    assert_eq!(yay_user_check(Some("root"), false), Err("yay install must run as a non-root user".to_string()));
    assert!(yay_user_check(Some("alice"), true).is_err());
}

#[test]
fn nvm_steps() {
    match nvm_step_work(false) {
        StepWork::Skip(log) => assert_eq!(log, "Skipping nvm install."),
        _ => panic!("expected skip"),
    }
    match nvm_step_work(true) {
        StepWork::Install { logs, commands, .. } => {
            assert_eq!(logs, strs(&["Installing nvm (Node Version Manager)..."]));
            assert_eq!(commands[0].args, strs(&["-S", "--noconfirm", "--needed", "nvm"]));
        }
        _ => panic!("expected install"),
    }
    let c = nvm_shell_command(Some("/usr/bin/zsh"));
    assert_eq!(c.program, "zsh");
    assert_eq!(
        c.args,
        strs(&[
            "-lc",
            "source ~/.zshrc && source /usr/share/nvm/init-nvm.sh && nvm install --lts && nvm use --lts && corepack enable && corepack prepare pnpm@latest --activate"
        ])
    );
    let c = nvm_shell_command(None);
    assert_eq!(c.program, "bash");
    assert!(c.args[1].starts_with("source ~/.bashrc && "));
    assert_eq!(nvm_shell_command(Some("/bin/fish")).program, "bash");
}

#[test]
fn nvm_rc_files() {
    let u = nvm_rc_update("export X=1\n", "/home/a/.bashrc");
    assert_eq!(u.append, Some("\n# Load nvm\nsource /usr/share/nvm/init-nvm.sh\n".to_string()));
    assert_eq!(u.log, "Adding nvm init to /home/a/.bashrc.");
    let u = nvm_rc_update("x\nsource /usr/share/nvm/init-nvm.sh\n", "/home/a/.zshrc");
    assert_eq!(u.append, None);
    assert_eq!(u.log, "nvm init already present in /home/a/.zshrc.");
    assert_eq!(nvm_rc_create_log("/h/.zshrc"), "Creating /h/.zshrc for nvm setup.");
}

#[test]
fn step_progress_stays_within_its_step() {
    let s = sel(&["firefox", "firefox-ublock-origin"], &["brave-bin"]);
    let mut t = ProgressTracker::for_selection(&s, true, 3);
    let mut last = 3.0 / 8.0;
    for line in ["installing firefox...", "installing brave-bin...", "installing firefox-ublock-origin..."] {
        let p = t.observe_line(line).progress.unwrap();
        let value = (p.steps_done as f64 + p.done as f64 / p.out_of as f64) / 8.0;
        assert!(value > last);
        assert!(value <= 4.0 / 8.0 + 1e-12);
        last = value;
    }
    assert!((last - 4.0 / 8.0).abs() < 1e-12);
}

#[test]
fn tracker_reports_never_go_back() {
    let mut t = ProgressTracker::new(&strs(&["a", "b", "c"]), 4);
    let lines = [
        "installing b...",
        "noise",
        "installing b...",
        "installing a...",
        "installing zz...",
        "installing c...",
    ];
    let mut reports: Vec<Progress> = Vec::new();
    for line in lines.iter() {
        if let Some(p) = t.observe_line(line).progress {
            reports.push(p);
        }
    }
    assert_eq!(
        reports,
        vec![
            Progress { steps_done: 4, done: 1, out_of: 3 },
            Progress { steps_done: 4, done: 2, out_of: 3 },
            Progress { steps_done: 4, done: 3, out_of: 3 },
        ]
    );
    for w in reports.windows(2) {
        assert!(w[0].done <= w[1].done);
        assert_eq!(w[0].steps_done, 4);
    }
}
