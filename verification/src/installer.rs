use vstd::prelude::*;
use crate::model::{event_views, progress_den, progress_le, progress_num, progress_valid, EventView, InstallerEvent, Progress, StepStatus, STEP_COUNT};
use crate::selection::{PackageSelection, SelectionView};
use crate::text::{
    contains_chars, has_substring,
    chars_eq, chars_of, concat, ends_with, ends_with_chars, is_whitespace, is_ws, join, lower_chars, lower_seq, name_list, opt_view, seq_join,
    slice_chars, string_of, strings_contain, trim, trim_chars,
};

verus! {

// ---------------------------------------------------------------------------
// Steps
// ---------------------------------------------------------------------------

pub const STEP_BASE: usize = 0;
pub const STEP_HYPRLAND: usize = 1;
pub const STEP_YAY: usize = 2;
pub const STEP_BROWSERS: usize = 3;
pub const STEP_TERMINALS: usize = 4;
pub const STEP_EDITORS: usize = 5;
pub const STEP_NVM: usize = 6;
pub const STEP_FINAL: usize = 7;

pub open spec fn spec_step_names() -> Seq<Seq<char>> {
    seq![
        "Installing base packages"@,
        "Installing Hyprland packages"@,
        "Installing yay"@,
        "Installing web browsers"@,
        "Installing terminals"@,
        "Installing editors"@,
        "Installing nvm"@,
        "Finalizing"@,
    ]
}

/// The names of the installer steps, in order.
pub fn step_names() -> (r: Vec<String>)
    ensures
        r.deep_view() == spec_step_names(),
        r.len() == STEP_COUNT,
{
    let r = name_list(
        &[
            "Installing base packages",
            "Installing Hyprland packages",
            "Installing yay",
            "Installing web browsers",
            "Installing terminals",
            "Installing editors",
            "Installing nvm",
            "Finalizing",
        ],
    );
    assert(r.deep_view() =~= spec_step_names());
    r
}

// ---------------------------------------------------------------------------
// Command lines
// ---------------------------------------------------------------------------

pub open spec fn pacman_args_spec(packages: Seq<Seq<char>>) -> Seq<Seq<char>> {
    seq!["pacman"@, "-S"@, "--noconfirm"@, "--needed"@, "--noprogressbar"@] + packages
}

pub open spec fn yay_args_spec(packages: Seq<Seq<char>>) -> Seq<Seq<char>> {
    seq!["-S"@, "--noconfirm"@, "--needed"@] + packages
}

fn append_all(target: &mut Vec<String>, values: &Vec<String>)
    ensures
        final(target).deep_view() == old(target).deep_view() + values.deep_view(),
{
    let ghost t0 = target.deep_view();
    let mut i: usize = 0;
    while i < values.len()
        invariant
            i <= values.len(),
            target.deep_view() == t0 + values.deep_view().take(i as int),
        decreases values.len() - i,
    {
        let ghost before = target.deep_view();
        target.push(values[i].clone());
        assert(target.deep_view() =~= before.push(values@[i as int]@));
        i += 1;
        assert(target.deep_view() =~= t0 + values.deep_view().take(i as int));
    }
    assert(values.deep_view().take(values.len() as int) =~= values.deep_view());
}

/// The arguments of `sudo` that install `packages` with pacman.
pub fn build_pacman_args(packages: &Vec<String>) -> (r: Vec<String>)
    ensures
        r.deep_view() == pacman_args_spec(packages.deep_view()),
{
    let mut args = name_list(&["pacman", "-S", "--noconfirm", "--needed", "--noprogressbar"]);
    append_all(&mut args, packages);
    assert(args.deep_view() =~= pacman_args_spec(packages.deep_view()));
    args
}

/// The arguments of `yay` that install `packages`.
pub fn build_yay_args(packages: &Vec<String>) -> (r: Vec<String>)
    ensures
        r.deep_view() == yay_args_spec(packages.deep_view()),
{
    let mut args = name_list(&["-S", "--noconfirm", "--needed"]);
    append_all(&mut args, packages);
    assert(args.deep_view() =~= yay_args_spec(packages.deep_view()));
    args
}

// ---------------------------------------------------------------------------
// pacman output
// ---------------------------------------------------------------------------

/// The leading run of non-whitespace characters of `s`.
pub open spec fn first_word(s: Seq<char>) -> Seq<char>
    decreases s.len(),
{
    if s.len() == 0 || is_ws(s[0]) {
        Seq::empty()
    } else {
        seq![s[0]] + first_word(s.drop_first())
    }
}

/// `s` without its trailing dots.
pub open spec fn trim_trailing_dots(s: Seq<char>) -> Seq<char>
    decreases s.len(),
{
    if s.len() > 0 && s.last() == '.' {
        trim_trailing_dots(s.drop_last())
    } else {
        s
    }
}

/// The package that a pacman output line announces: a trimmed line that starts
/// with `installing ` (in any letter case) names, as its next word, the package,
/// without trailing dots.
pub open spec fn pacman_install_spec(line: Seq<char>) -> Option<Seq<char>> {
    let t = trim(line);
    if t.len() >= 11 && lower_seq(t.subrange(0, 11)) == "installing "@ {
        let rest = trim(t.subrange(11, t.len() as int));
        if rest.len() == 0 {
            None
        } else {
            Some(trim_trailing_dots(first_word(rest)))
        }
    } else {
        None
    }
}

fn first_word_exec(s: &Vec<char>) -> (r: Vec<char>)
    ensures
        r@ == first_word(s@),
{
    let n = s.len();
    let mut j: usize = 0;
    assert(s@.subrange(0, 0) + first_word(s@.subrange(0, n as int)) =~= first_word(s@)) by {
        assert(s@.subrange(0, n as int) =~= s@);
    }
    while j < n && !is_whitespace(s[j])
        invariant
            j <= n == s.len(),
            first_word(s@) == s@.subrange(0, j as int) + first_word(s@.subrange(j as int, n as int)),
        decreases n - j,
    {
        let ghost t = s@.subrange(j as int, n as int);
        assert(t.drop_first() =~= s@.subrange(j + 1, n as int));
        assert(s@.subrange(0, j + 1) =~= s@.subrange(0, j as int) + seq![s@[j as int]]);
        j += 1;
    }
    assert(s@.subrange(0, j as int) + first_word(s@.subrange(j as int, n as int)) =~= s@.subrange(0, j as int));
    slice_chars(s, 0, j)
}

fn trim_trailing_dots_exec(s: &Vec<char>) -> (r: Vec<char>)
    ensures
        r@ == trim_trailing_dots(s@),
{
    let mut j = s.len();
    assert(s@.subrange(0, j as int) =~= s@);
    while j > 0 && s[j - 1] == '.'
        invariant
            j <= s.len(),
            trim_trailing_dots(s@) == trim_trailing_dots(s@.subrange(0, j as int)),
        decreases j,
    {
        assert(s@.subrange(0, j as int).drop_last() =~= s@.subrange(0, j - 1));
        j -= 1;
    }
    slice_chars(s, 0, j)
}

/// The package that a pacman output line announces as being installed.
pub fn parse_pacman_install(line: &str) -> (r: Option<String>)
    ensures
        opt_view(r) == pacman_install_spec(line@),
{
    let t = trim_chars(&chars_of(line));
    if t.len() < 11 {
        return None;
    }
    let head = lower_chars(&slice_chars(&t, 0, 11));
    if !chars_eq(&head, &chars_of("installing ")) {
        return None;
    }
    let rest = trim_chars(&slice_chars(&t, 11, t.len()));
    if rest.len() == 0 {
        return None;
    }
    let word = first_word_exec(&rest);
    let pkg = trim_trailing_dots_exec(&word);
    Some(string_of(&pkg))
}

// ---------------------------------------------------------------------------
// Progress tracking
// ---------------------------------------------------------------------------

/// A sequence without repeats whose elements all occur in `b` is no longer than `b`.
proof fn lemma_distinct_within_len(a: Seq<Seq<char>>, b: Seq<Seq<char>>)
    requires
        a.no_duplicates(),
        forall|x: Seq<char>| a.contains(x) ==> b.contains(x),
    ensures
        a.len() <= b.len(),
{
    broadcast use vstd::seq_lib::seq_to_set_is_finite;

    a.unique_seq_to_set();
    b.lemma_cardinality_of_set();
    assert(a.to_set().subset_of(b.to_set())) by {
        assert forall|x: Seq<char>| a.to_set().contains(x) implies b.to_set().contains(x) by {
            assert(a.contains(x));
        }
    }
    vstd::set_lib::lemma_len_subset(a.to_set(), b.to_set());
}

/// Counts the packages of one step as their installation shows up in the
/// command output; each package counts once.
pub struct ProgressTracker {
    packages: Vec<String>,
    seen: Vec<String>,
    steps_done: usize,
}

/// What to do with one line of command output.
#[derive(Clone, Copy, Debug, PartialEq, Eq, Structural)]
pub struct LineOutcome {
    /// Whether the line goes to the log (blank lines do not).
    pub log: bool,
    /// The new overall progress, when the line announced a watched package for
    /// the first time.
    pub progress: Option<Progress>,
}

impl ProgressTracker {
    #[verifier::type_invariant]
    closed spec fn inv(self) -> bool {
        &&& self.seen.deep_view().no_duplicates()
        &&& forall|x: Seq<char>| self.seen.deep_view().contains(x) ==> self.packages.deep_view().contains(x)
        &&& self.steps_done < STEP_COUNT
    }

    /// The names whose installation counts.
    pub closed spec fn watched(self) -> Seq<Seq<char>> {
        self.packages.deep_view()
    }

    /// The watched names whose installation was seen, in the order seen.
    pub closed spec fn seen(self) -> Seq<Seq<char>> {
        self.seen.deep_view()
    }

    /// The number of whole steps before this one.
    pub closed spec fn steps_done(self) -> nat {
        self.steps_done as nat
    }

    /// The overall progress once the seen packages are installed.
    pub open spec fn current(self) -> Progress {
        Progress {
            steps_done: self.steps_done() as usize,
            done: self.seen().len() as usize,
            out_of: self.watched().len() as usize,
        }
    }

    /// A tracker for the packages of the step that follows `steps_done` whole steps.
    pub fn new(packages: &Vec<String>, steps_done: usize) -> (r: Self)
        requires
            steps_done < STEP_COUNT,
        ensures
            r.watched() == packages.deep_view(),
            r.seen() == Seq::<Seq<char>>::empty(),
            r.steps_done() == steps_done,
    {
        let r = ProgressTracker { packages: packages.clone(), seen: Vec::new(), steps_done };
        assert(r.packages.deep_view() =~= packages.deep_view());
        assert(r.seen.deep_view() =~= Seq::<Seq<char>>::empty());
        r
    }

    /// A tracker for the pacman packages, and the AUR packages when `with_aur`,
    /// of a selection.
    pub fn for_selection(selection: &PackageSelection, with_aur: bool, steps_done: usize) -> (r: Self)
        requires
            steps_done < STEP_COUNT,
        ensures
            r.watched() == if with_aur {
                selection@.pacman + selection@.yay
            } else {
                selection@.pacman
            },
            r.seen() == Seq::<Seq<char>>::empty(),
            r.steps_done() == steps_done,
    {
        let mut packages: Vec<String> = Vec::new();
        assert(packages.deep_view() =~= Seq::<Seq<char>>::empty());
        append_all(&mut packages, &selection.pacman);
        if with_aur {
            append_all(&mut packages, &selection.yay);
        }
        assert(packages.deep_view() =~= if with_aur {
            selection@.pacman + selection@.yay
        } else {
            selection@.pacman
        });
        ProgressTracker::new(&packages, steps_done)
    }

    /// Reads one line of command output.
    pub fn observe_line(&mut self, line: &str) -> (r: LineOutcome)
        ensures
            r.log == (trim(line@).len() > 0),
            final(self).watched() == old(self).watched(),
            final(self).steps_done() == old(self).steps_done(),
            match pacman_install_spec(line@) {
                Some(p) if old(self).watched().contains(p) && !old(self).seen().contains(p) => {
                    &&& final(self).seen() == old(self).seen().push(p)
                    &&& r.progress == Some(final(self).current())
                },
                _ => {
                    &&& final(self).seen() == old(self).seen()
                    &&& r.progress is None
                },
            },
            final(self).seen().len() <= final(self).watched().len(),
            final(self).seen().no_duplicates(),
            r.progress matches Some(p) ==> progress_valid(p),
            final(self).seen() == seen_after_line(old(self).watched(), old(self).seen(), line@),
            progress_le(old(self).current(), final(self).current()),
    {
        proof {
            use_type_invariant(&*self);
        }
        let t = trim_chars(&chars_of(line));
        if t.len() == 0 {
            proof {
                lemma_distinct_within_len(self.seen.deep_view(), self.packages.deep_view());
                assert(pacman_install_spec(line@) is None);
                lemma_progress_le_same_done(self.current(), self.current());
            }
            return LineOutcome { log: false, progress: None };
        }
        let mut progress: Option<Progress> = None;
        if let Some(pkg) = parse_pacman_install(line) {
            let p = pkg.as_str();
            if strings_contain(&self.packages, p) && !strings_contain(&self.seen, p) {
                let ghost before = self.seen.deep_view();
                let mut seen: Vec<String> = Vec::new();
                assert(seen.deep_view() =~= Seq::<Seq<char>>::empty());
                std::mem::swap(&mut seen, &mut self.seen);
                seen.push(pkg);
                proof {
                    assert(seen.deep_view() =~= before.push(p@));
                    assert forall|x: Seq<char>| seen.deep_view().contains(x) implies self.packages.deep_view().contains(x) by {
                        if x != p@ {
                            let k = choose|k: int| 0 <= k < seen.deep_view().len() && seen.deep_view()[k] == x;
                            assert(before[k] == x);
                        }
                    }
                    assert forall|i: int, j: int| 0 <= i < seen.deep_view().len() && 0 <= j < seen.deep_view().len() && i != j implies seen.deep_view()[i] != seen.deep_view()[j] by {
                        if i == before.len() as int {
                            assert(before.contains(before[j]));
                        } else if j == before.len() as int {
                            assert(before.contains(before[i]));
                        }
                    }
                }
                std::mem::swap(&mut seen, &mut self.seen);
                proof {
                    lemma_distinct_within_len(self.seen.deep_view(), self.packages.deep_view());
                }
                progress = Some(Progress { steps_done: self.steps_done, done: self.seen.len(), out_of: self.packages.len() });
            }
        }
        proof {
            lemma_distinct_within_len(self.seen.deep_view(), self.packages.deep_view());
            lemma_progress_le_same_done(old(self).current(), self.current());
        }
        LineOutcome { log: true, progress }
    }
}

/// The seen packages after one more line of output: the package that the
/// line announces, when it is watched and not seen yet, is added at the end.
pub open spec fn seen_after_line(watched: Seq<Seq<char>>, seen: Seq<Seq<char>>, line: Seq<char>) -> Seq<Seq<char>> {
    match pacman_install_spec(line) {
        Some(p) if watched.contains(p) && !seen.contains(p) => seen.push(p),
        _ => seen,
    }
}

/// The progress values that a tracker of step `k` watching `watched`, having
/// seen `seen`, reports while it reads `lines` one after the other.
pub open spec fn tracker_reports(
    watched: Seq<Seq<char>>,
    k: int,
    seen: Seq<Seq<char>>,
    lines: Seq<Seq<char>>,
) -> Seq<Progress>
    decreases lines.len(),
{
    if lines.len() == 0 {
        Seq::empty()
    } else {
        let next = seen_after_line(watched, seen, lines[0]);
        let rest = tracker_reports(watched, k, next, lines.drop_first());
        if next.len() > seen.len() {
            seq![Progress { steps_done: k as usize, done: next.len() as usize, out_of: watched.len() as usize }]
                + rest
        } else {
            rest
        }
    }
}

proof fn lemma_tracker_reports(watched: Seq<Seq<char>>, k: int, seen: Seq<Seq<char>>, lines: Seq<Seq<char>>)
    requires
        0 <= k < STEP_COUNT,
        watched.len() <= usize::MAX,
        seen.no_duplicates(),
        forall|x: Seq<char>| seen.contains(x) ==> watched.contains(x),
    ensures
        forall|i: int|
            0 <= i < tracker_reports(watched, k, seen, lines).len() ==> {
                let p = #[trigger] tracker_reports(watched, k, seen, lines)[i];
                &&& p.steps_done == k
                &&& p.out_of == watched.len()
                &&& seen.len() < p.done <= watched.len()
            },
        nondecreasing(tracker_reports(watched, k, seen, lines)),
    decreases lines.len(),
{
    if lines.len() > 0 {
        let next = seen_after_line(watched, seen, lines[0]);
        match pacman_install_spec(lines[0]) {
            Some(p) if watched.contains(p) && !seen.contains(p) => {
                assert forall|i: int, j: int| 0 <= i < next.len() && 0 <= j < next.len() && i != j implies next[i] != next[j] by {
                    if i == seen.len() as int {
                        assert(seen.contains(seen[j]));
                    } else if j == seen.len() as int {
                        assert(seen.contains(seen[i]));
                    }
                }
                assert forall|x: Seq<char>| next.contains(x) implies watched.contains(x) by {
                    if x != p {
                        let m = choose|m: int| 0 <= m < next.len() && next[m] == x;
                        assert(seen[m] == x);
                    }
                }
            },
            _ => {},
        }
        let rest = tracker_reports(watched, k, next, lines.drop_first());
        lemma_tracker_reports(watched, k, next, lines.drop_first());
        if next.len() > seen.len() {
            lemma_distinct_within_len(next, watched);
            let first = Progress { steps_done: k as usize, done: next.len() as usize, out_of: watched.len() as usize };
            let all = seq![first] + rest;
            assert(all == tracker_reports(watched, k, seen, lines));
            if rest.len() > 0 {
                assert(rest[0].done > next.len());
                lemma_progress_le_same_done(first, rest[0]);
            }
            assert forall|i: int| 0 <= i < all.len() - 1 implies progress_le(#[trigger] all[i], all[i + 1]) by {
                if i > 0 {
                    assert(all[i] == rest[i - 1]);
                    assert(all[i + 1] == rest[i]);
                }
            }
            assert forall|i: int| 0 <= i < all.len() implies {
                let p = #[trigger] all[i];
                &&& p.steps_done == k
                &&& p.out_of == watched.len()
                &&& seen.len() < p.done <= watched.len()
            } by {
                if i > 0 {
                    assert(all[i] == rest[i - 1]);
                }
            }
        }
    }
}

/// The progress values that a tracker reports over any lines of output, from
/// a fresh start in step `k`, meet [`step_work_progress`] for that step: the
/// premise that [`law_run_progress_nondecreasing`] puts on each step's work.
pub proof fn law_tracker_reports_step_work(watched: Seq<Seq<char>>, k: int, lines: Seq<Seq<char>>)
    requires
        0 <= k < STEP_COUNT,
        watched.len() <= usize::MAX,
    ensures
        step_work_progress(k, tracker_reports(watched, k, Seq::empty(), lines)),
{
    lemma_tracker_reports(watched, k, Seq::empty(), lines);
}

/// Progress reported while a step's packages are installed lies between the
/// progress before that step and the progress after it.
pub proof fn law_step_progress_between(p: Progress)
    requires
        progress_valid(p),
        p.steps_done < STEP_COUNT,
    ensures
        progress_le(whole_steps(p.steps_done as int), p),
        progress_le(p, whole_steps(p.steps_done + 1)),
{
    let k = p.steps_done as int;
    let t = p.out_of as int;
    let d = p.done as int;
    assert(progress_num(whole_steps(k)) == k);
    assert(progress_den(whole_steps(k)) == STEP_COUNT);
    assert(progress_num(whole_steps(k + 1)) == k + 1);
    assert(progress_den(whole_steps(k + 1)) == STEP_COUNT);
    assert(k * (STEP_COUNT * t) <= (k * t + d) * STEP_COUNT) by (nonlinear_arith)
        requires
            0 <= d,
            0 < t,
            0 <= k,
    ;
    assert((k * t + d) * STEP_COUNT <= (k + 1) * (STEP_COUNT * t)) by (nonlinear_arith)
        requires
            0 <= d <= t,
            0 <= k,
    ;
}

/// Within one step, more packages seen is further along.
proof fn lemma_progress_le_same_done(a: Progress, b: Progress)
    requires
        a.steps_done == b.steps_done,
        a.out_of == b.out_of,
        a.done <= b.done,
    ensures
        progress_le(a, b),
{
    assert(progress_num(a) * progress_den(b) <= progress_num(b) * progress_den(a)) by (nonlinear_arith)
        requires
            progress_num(a) == a.steps_done * a.out_of + a.done,
            progress_num(b) == a.steps_done * a.out_of + b.done,
            progress_den(a) == STEP_COUNT * a.out_of,
            progress_den(b) == STEP_COUNT * a.out_of,
            a.done <= b.done,
            a.out_of >= 0,
    ;
}

// ---------------------------------------------------------------------------
// The run of all steps
// ---------------------------------------------------------------------------

/// Which optional steps have nothing to do.
#[derive(Clone, Copy, Debug, PartialEq, Eq, Structural)]
pub struct StepSkips {
    pub browsers: bool,
    pub terminals: bool,
    pub editors: bool,
    pub nvm: bool,
}

pub open spec fn step_skipped(skips: StepSkips, step: int) -> bool {
    if step == STEP_BROWSERS {
        skips.browsers
    } else if step == STEP_TERMINALS {
        skips.terminals
    } else if step == STEP_EDITORS {
        skips.editors
    } else if step == STEP_NVM {
        skips.nvm
    } else {
        false
    }
}

/// The status that a step ends with when its work succeeded.
pub open spec fn success_status(skips: StepSkips, step: int) -> StepStatus {
    if step_skipped(skips, step) {
        StepStatus::Skipped
    } else {
        StepStatus::Done
    }
}

pub open spec fn whole_steps(k: int) -> Progress {
    Progress { steps_done: k as usize, done: 0, out_of: 1 }
}

pub open spec fn running(step: int) -> EventView {
    EventView::Step { index: step as usize, status: StepStatus::Running, err: None }
}

pub open spec fn finished_as(step: int, status: StepStatus) -> EventView {
    EventView::Step { index: step as usize, status, err: None }
}

/// What is reported when a step starts: it runs, and the last step also says
/// that it is finalizing.
pub open spec fn start_events_spec(step: int) -> Seq<EventView> {
    if step == STEP_FINAL {
        seq![running(step), EventView::Log("Finalizing..."@)]
    } else {
        seq![running(step)]
    }
}

/// What is reported when a step's work succeeded, up to the start of the next
/// step. The base step reports its status before its progress; the other steps
/// report their progress first. After the last step the run is done.
pub open spec fn success_events_spec(skips: StepSkips, step: int) -> Seq<EventView> {
    if step == STEP_BASE {
        seq![finished_as(step, StepStatus::Done), EventView::Progress(whole_steps(1))] + start_events_spec(1)
    } else if step == STEP_FINAL {
        seq![
            finished_as(step, StepStatus::Done),
            EventView::Progress(whole_steps(STEP_COUNT as int)),
            EventView::Done(None),
        ]
    } else {
        seq![EventView::Progress(whole_steps(step + 1)), finished_as(step, success_status(skips, step))]
            + start_events_spec(step + 1)
    }
}

/// What is reported when a step's work failed: the step fails with the message.
/// The run ends there; announcing the end with the message is the caller's.
pub open spec fn failure_events_spec(step: int, msg: Seq<char>) -> Seq<EventView> {
    seq![EventView::Step { index: step as usize, status: StepStatus::Failed, err: Some(msg) }]
}

/// What the caller does next.
#[derive(Clone, Copy, Debug, PartialEq, Eq, Structural)]
pub enum RunAction {
    /// Do the work of this step and report how it went.
    Perform(usize),
    /// The run is over.
    Finish,
}

/// The order of the installer steps and what each outcome reports.
pub struct InstallerRun {
    skips: StepSkips,
    step: usize,
    finished: bool,
}

impl InstallerRun {
    #[verifier::type_invariant]
    closed spec fn inv(self) -> bool {
        self.step < STEP_COUNT
    }

    pub closed spec fn skips(self) -> StepSkips {
        self.skips
    }

    /// The step being worked on.
    pub closed spec fn step(self) -> int {
        self.step as int
    }

    pub closed spec fn finished(self) -> bool {
        self.finished
    }

    /// A run about to start, for the given choices.
    pub fn new(
        browsers: &PackageSelection,
        terminals: &PackageSelection,
        editors: &PackageSelection,
        install_nvm: bool,
    ) -> (r: Self)
        ensures
            r.skips() == (StepSkips {
                browsers: browsers@.pacman.len() == 0 && browsers@.yay.len() == 0,
                terminals: terminals@.pacman.len() == 0 && terminals@.yay.len() == 0,
                editors: editors@.pacman.len() == 0 && editors@.yay.len() == 0,
                nvm: !install_nvm,
            }),
            r.step() == STEP_BASE,
            !r.finished(),
    {
        InstallerRun {
            skips: StepSkips {
                browsers: browsers.is_empty(),
                terminals: terminals.is_empty(),
                editors: editors.is_empty(),
                nvm: !install_nvm,
            },
            step: STEP_BASE,
            finished: false,
        }
    }

    /// Starts the run: the first step runs.
    pub fn begin(&self) -> (r: (Vec<InstallerEvent>, RunAction))
        ensures
            event_views(r.0@) == start_events_spec(self.step()),
            r.1 == (if self.finished() { RunAction::Finish } else { RunAction::Perform(self.step() as usize) }),
    {
        proof {
            use_type_invariant(self);
        }
        let events = start_events(self.step);
        if self.finished {
            (events, RunAction::Finish)
        } else {
            (events, RunAction::Perform(self.step))
        }
    }

    /// Takes the outcome of the current step's work: what to report, and what to
    /// do next. After the end of the run nothing more is reported.
    pub fn complete(&mut self, result: Result<(), String>) -> (r: (Vec<InstallerEvent>, RunAction))
        ensures
            final(self).skips() == old(self).skips(),
            old(self).finished() ==> {
                &&& r.0@.len() == 0
                &&& r.1 == RunAction::Finish
                &&& final(self).finished()
            },
            !old(self).finished() ==> match result {
                Err(msg) => {
                    &&& event_views(r.0@) == failure_events_spec(old(self).step(), msg@)
                    &&& r.1 == RunAction::Finish
                    &&& final(self).finished()
                },
                Ok(()) => {
                    &&& event_views(r.0@) == success_events_spec(old(self).skips(), old(self).step())
                    &&& if old(self).step() == STEP_FINAL {
                        r.1 == RunAction::Finish && final(self).finished()
                    } else {
                        &&& r.1 == RunAction::Perform((old(self).step() + 1) as usize)
                        &&& final(self).step() == old(self).step() + 1
                        &&& !final(self).finished()
                    }
                },
            },
    {
        proof {
            use_type_invariant(&*self);
        }
        if self.finished {
            return (Vec::new(), RunAction::Finish);
        }
        let step = self.step;
        match result {
            Err(msg) => {
                self.finished = true;
                let e1 = InstallerEvent::Step { index: step, status: StepStatus::Failed, err: Some(msg) };
                let events = vec![e1];
                assert(event_views(events@) =~= failure_events_spec(step as int, msg@));
                (events, RunAction::Finish)
            },
            Ok(()) => {
                if step == STEP_FINAL {
                    self.finished = true;
                    let events = vec![
                        InstallerEvent::Step { index: step, status: StepStatus::Done, err: None },
                        InstallerEvent::Progress(Progress::steps(STEP_COUNT)),
                        InstallerEvent::Done(None),
                    ];
                    assert(event_views(events@) =~= success_events_spec(self.skips, step as int));
                    return (events, RunAction::Finish);
                }
                let status = if self.step_is_skipped(step) {
                    StepStatus::Skipped
                } else {
                    StepStatus::Done
                };
                let mut events: Vec<InstallerEvent> = if step == STEP_BASE {
                    vec![
                        InstallerEvent::Step { index: step, status: StepStatus::Done, err: None },
                        InstallerEvent::Progress(Progress::steps(1)),
                    ]
                } else {
                    vec![
                        InstallerEvent::Progress(Progress::steps(step + 1)),
                        InstallerEvent::Step { index: step, status, err: None },
                    ]
                };
                let ghost head = event_views(events@);
                let next = start_events(step + 1);
                let ghost tail = event_views(next@);
                let mut next = next;
                events.append(&mut next);
                assert(event_views(events@) =~= head + tail);
                assert(event_views(events@) =~= success_events_spec(self.skips, step as int));
                self.step = step + 1;
                (events, RunAction::Perform(step + 1))
            },
        }
    }

    /// Abandons the run during the current step without reporting anything:
    /// the step keeps its status.
    pub fn abort(&mut self) -> (r: RunAction)
        ensures
            r == RunAction::Finish,
            final(self).finished(),
            final(self).skips() == old(self).skips(),
            final(self).step() == old(self).step(),
    {
        proof {
            use_type_invariant(&*self);
        }
        self.finished = true;
        RunAction::Finish
    }

    fn step_is_skipped(&self, step: usize) -> (r: bool)
        ensures
            r == step_skipped(self.skips, step as int),
    {
        if step == STEP_BROWSERS {
            self.skips.browsers
        } else if step == STEP_TERMINALS {
            self.skips.terminals
        } else if step == STEP_EDITORS {
            self.skips.editors
        } else if step == STEP_NVM {
            self.skips.nvm
        } else {
            false
        }
    }
}

fn start_events(step: usize) -> (r: Vec<InstallerEvent>)
    ensures
        event_views(r@) == start_events_spec(step as int),
{
    let running = InstallerEvent::Step { index: step, status: StepStatus::Running, err: None };
    if step == STEP_FINAL {
        let r = vec![running, InstallerEvent::Log("Finalizing...".to_string())];
        assert(event_views(r@) =~= start_events_spec(step as int));
        r
    } else {
        let r = vec![running];
        assert(event_views(r@) =~= start_events_spec(step as int));
        r
    }
}

// ---------------------------------------------------------------------------
// Whole runs
// ---------------------------------------------------------------------------

/// Everything reported by a run whose first `n` steps succeeded, up to the
/// start of step `n`.
pub open spec fn run_prefix(skips: StepSkips, n: int) -> Seq<EventView>
    decreases n,
{
    if n <= 0 {
        start_events_spec(STEP_BASE as int)
    } else {
        run_prefix(skips, n - 1) + success_events_spec(skips, n - 1)
    }
}

/// Everything reported by a run in which every step succeeded.
pub open spec fn successful_run(skips: StepSkips) -> Seq<EventView> {
    run_prefix(skips, STEP_COUNT as int)
}

/// Everything reported by a run whose step `k` failed with `msg`.
pub open spec fn failed_run(skips: StepSkips, k: int, msg: Seq<char>) -> Seq<EventView> {
    run_prefix(skips, k) + failure_events_spec(k, msg)
}

/// The step statuses after one event, as the screen applies it.
pub open spec fn apply_status_event(st: Seq<StepStatus>, e: EventView) -> Seq<StepStatus> {
    match e {
        EventView::Step { index, status, err } => if index < st.len() {
            st.update(index as int, status)
        } else {
            st
        },
        _ => st,
    }
}

/// The step statuses after a sequence of events.
pub open spec fn apply_status_events(st: Seq<StepStatus>, events: Seq<EventView>) -> Seq<StepStatus>
    decreases events.len(),
{
    if events.len() == 0 {
        st
    } else {
        apply_status_event(apply_status_events(st, events.drop_last()), events.last())
    }
}

pub open spec fn all_pending() -> Seq<StepStatus> {
    Seq::new(STEP_COUNT as nat, |i: int| StepStatus::Pending)
}

/// The statuses shown once steps before `k` have succeeded: those steps show
/// their final status and the rest are pending.
pub open spec fn statuses_before(skips: StepSkips, k: int) -> Seq<StepStatus> {
    Seq::new(
        STEP_COUNT as nat,
        |i: int|
            if i < k {
                success_status(skips, i)
            } else {
                StepStatus::Pending
            },
    )
}

proof fn lemma_apply_concat(st: Seq<StepStatus>, a: Seq<EventView>, b: Seq<EventView>)
    ensures
        apply_status_events(st, a + b) == apply_status_events(apply_status_events(st, a), b),
    decreases b.len(),
{
    if b.len() == 0 {
        assert(a + b =~= a);
    } else {
        lemma_apply_concat(st, a, b.drop_last());
        assert((a + b).drop_last() =~= a + b.drop_last());
        assert((a + b).last() == b.last());
    }
}

proof fn lemma_apply_one(st: Seq<StepStatus>, e: EventView)
    ensures
        apply_status_events(st, seq![e]) == apply_status_event(st, e),
{
    assert(seq![e].drop_last() =~= Seq::<EventView>::empty());
    assert(apply_status_events(st, Seq::<EventView>::empty()) == st);
    assert(seq![e].last() == e);
    assert(apply_status_events(st, seq![e]) == apply_status_event(apply_status_events(st, seq![e].drop_last()), seq![e].last()));
}

proof fn lemma_apply_two(st: Seq<StepStatus>, e1: EventView, e2: EventView)
    ensures
        apply_status_events(st, seq![e1, e2]) == apply_status_event(apply_status_event(st, e1), e2),
{
    assert(seq![e1, e2] =~= seq![e1] + seq![e2]);
    lemma_apply_concat(st, seq![e1], seq![e2]);
    lemma_apply_one(st, e1);
    lemma_apply_one(apply_status_event(st, e1), e2);
}

proof fn lemma_apply_start(st: Seq<StepStatus>, k: int)
    requires
        0 <= k < STEP_COUNT,
        st.len() == STEP_COUNT,
    ensures
        apply_status_events(st, start_events_spec(k)) == st.update(k, StepStatus::Running),
{
    if k == STEP_FINAL {
        lemma_apply_two(st, running(k), EventView::Log("Finalizing..."@));
    } else {
        lemma_apply_one(st, running(k));
    }
}

/// After the first `k` steps succeeded, steps before `k` show their final
/// status, step `k` runs, and the others are pending.
proof fn lemma_run_prefix_statuses(skips: StepSkips, k: int)
    requires
        0 <= k < STEP_COUNT,
    ensures
        apply_status_events(all_pending(), run_prefix(skips, k)) == statuses_before(skips, k).update(
            k,
            StepStatus::Running,
        ),
    decreases k,
{
    if k == 0 {
        lemma_apply_start(all_pending(), 0);
        assert(all_pending().update(0, StepStatus::Running) =~= statuses_before(skips, 0).update(0, StepStatus::Running));
    } else {
        lemma_run_prefix_statuses(skips, k - 1);
        let prev = run_prefix(skips, k - 1);
        let ev = success_events_spec(skips, k - 1);
        lemma_apply_concat(all_pending(), prev, ev);
        let st = statuses_before(skips, k - 1).update(k - 1, StepStatus::Running);
        let (e1, e2) = if k - 1 == STEP_BASE {
            (finished_as(0, StepStatus::Done), EventView::Progress(whole_steps(1)))
        } else {
            (EventView::Progress(whole_steps(k)), finished_as(k - 1, success_status(skips, k - 1)))
        };
        let b = start_events_spec(k);
        assert(ev =~= seq![e1, e2] + b);
        lemma_apply_concat(st, seq![e1, e2], b);
        lemma_apply_two(st, e1, e2);
        let st2 = apply_status_events(st, seq![e1, e2]);
        assert(st2 =~= statuses_before(skips, k));
        lemma_apply_start(st2, k);
    }
}

/// When every step succeeds, the screen ends with every step done, except the
/// optional steps that had nothing to do, which show as skipped; and the last
/// report says that the run is done without error.
pub proof fn law_successful_run_statuses(skips: StepSkips)
    ensures
        apply_status_events(all_pending(), successful_run(skips)) == statuses_before(
            skips,
            STEP_COUNT as int,
        ),
        successful_run(skips).last() == EventView::Done(None),
{
    let k = STEP_FINAL as int;
    lemma_run_prefix_statuses(skips, k);
    let prev = run_prefix(skips, k);
    let ev = success_events_spec(skips, k);
    lemma_apply_concat(all_pending(), prev, ev);
    let st = statuses_before(skips, k).update(k, StepStatus::Running);
    let e1 = finished_as(k, StepStatus::Done);
    let e2 = EventView::Progress(whole_steps(STEP_COUNT as int));
    let e3 = EventView::Done(None);
    assert(ev =~= seq![e1, e2] + seq![e3]);
    lemma_apply_concat(st, seq![e1, e2], seq![e3]);
    lemma_apply_two(st, e1, e2);
    lemma_apply_one(apply_status_events(st, seq![e1, e2]), e3);
    assert(apply_status_events(st, ev) =~= statuses_before(skips, STEP_COUNT as int));
}

/// When step `k` fails, the screen ends with the steps before it finished, step
/// `k` failed, the later steps pending; and the last report of the run is that
/// step's failure with its error.
pub proof fn law_failed_run_statuses(skips: StepSkips, k: int, msg: Seq<char>)
    requires
        0 <= k < STEP_COUNT,
    ensures
        apply_status_events(all_pending(), failed_run(skips, k, msg)) == statuses_before(skips, k).update(
            k,
            StepStatus::Failed,
        ),
        failed_run(skips, k, msg).last() == (EventView::Step {
            index: k as usize,
            status: StepStatus::Failed,
            err: Some(msg),
        }),
{
    lemma_run_prefix_statuses(skips, k);
    let prev = run_prefix(skips, k);
    let ev = failure_events_spec(k, msg);
    lemma_apply_concat(all_pending(), prev, ev);
    let st = statuses_before(skips, k).update(k, StepStatus::Running);
    lemma_apply_one(st, ev[0]);
    assert(ev =~= seq![ev[0]]);
    assert(apply_status_events(st, ev) =~= statuses_before(skips, k).update(k, StepStatus::Failed));
}

/// For a run made by [`InstallerRun::new`] from the browser, terminal and
/// editor selections and the nvm choice, a step that succeeded shows as
/// skipped exactly when its own choice had nothing to do: the browser step
/// when no browser was chosen, the terminal step when no terminal was chosen,
/// the editor step when no editor was chosen, the nvm step when nvm was not
/// wanted. Every other step that succeeded shows as done. This holds both of
/// what one successful step reports and of the screen after a successful run.
pub proof fn law_success_status_follows_own_choice(
    browsers: SelectionView,
    terminals: SelectionView,
    editors: SelectionView,
    install_nvm: bool,
    k: int,
    st: Seq<StepStatus>,
)
    requires
        0 <= k < STEP_COUNT,
        st.len() == STEP_COUNT,
    ensures
        ({
            let skips = StepSkips {
                browsers: browsers.pacman.len() == 0 && browsers.yay.len() == 0,
                terminals: terminals.pacman.len() == 0 && terminals.yay.len() == 0,
                editors: editors.pacman.len() == 0 && editors.yay.len() == 0,
                nvm: !install_nvm,
            };
            let expected = if (k == STEP_BROWSERS && browsers.pacman.len() == 0 && browsers.yay.len() == 0)
                || (k == STEP_TERMINALS && terminals.pacman.len() == 0 && terminals.yay.len() == 0)
                || (k == STEP_EDITORS && editors.pacman.len() == 0 && editors.yay.len() == 0)
                || (k == STEP_NVM && !install_nvm) {
                StepStatus::Skipped
            } else {
                StepStatus::Done
            };
            &&& apply_status_events(st, success_events_spec(skips, k))[k] == expected
            &&& apply_status_events(all_pending(), successful_run(skips))[k] == expected
        }),
{
    let skips = StepSkips {
        browsers: browsers.pacman.len() == 0 && browsers.yay.len() == 0,
        terminals: terminals.pacman.len() == 0 && terminals.yay.len() == 0,
        editors: editors.pacman.len() == 0 && editors.yay.len() == 0,
        nvm: !install_nvm,
    };
    law_successful_run_statuses(skips);
    let ev = success_events_spec(skips, k);
    if k == STEP_BASE {
        let e1 = finished_as(k, StepStatus::Done);
        let e2 = EventView::Progress(whole_steps(1));
        assert(ev =~= seq![e1, e2] + start_events_spec(1));
        lemma_apply_concat(st, seq![e1, e2], start_events_spec(1));
        lemma_apply_two(st, e1, e2);
        lemma_apply_start(apply_status_events(st, seq![e1, e2]), 1);
    } else if k == STEP_FINAL {
        let e1 = finished_as(k, StepStatus::Done);
        let e2 = EventView::Progress(whole_steps(STEP_COUNT as int));
        let e3 = EventView::Done(None);
        assert(ev =~= seq![e1, e2] + seq![e3]);
        lemma_apply_concat(st, seq![e1, e2], seq![e3]);
        lemma_apply_two(st, e1, e2);
        lemma_apply_one(apply_status_events(st, seq![e1, e2]), e3);
    } else {
        let e1 = EventView::Progress(whole_steps(k + 1));
        let e2 = finished_as(k, success_status(skips, k));
        assert(ev =~= seq![e1, e2] + start_events_spec(k + 1));
        lemma_apply_concat(st, seq![e1, e2], start_events_spec(k + 1));
        lemma_apply_two(st, e1, e2);
        lemma_apply_start(apply_status_events(st, seq![e1, e2]), k + 1);
    }
}

/// When the run is abandoned during step `k`, the screen shows the steps before
/// it finished, step `k` still running, and the later steps pending.
pub proof fn law_aborted_run_statuses(skips: StepSkips, k: int)
    requires
        0 <= k < STEP_COUNT,
    ensures
        apply_status_events(all_pending(), run_prefix(skips, k)) == statuses_before(skips, k).update(
            k,
            StepStatus::Running,
        ),
{
    lemma_run_prefix_statuses(skips, k);
}

// ---------------------------------------------------------------------------
// Progress over a whole run
// ---------------------------------------------------------------------------

pub open spec fn progress_events(ps: Seq<Progress>) -> Seq<EventView> {
    ps.map_values(|p: Progress| EventView::Progress(p))
}

/// Everything reported by a run whose first `n` steps succeeded, where the work
/// of step `k` reported the progress values `works[k]`.
pub open spec fn run_prefix_with(skips: StepSkips, works: Seq<Seq<Progress>>, n: int) -> Seq<EventView>
    decreases n,
{
    if n <= 0 {
        start_events_spec(STEP_BASE as int)
    } else {
        run_prefix_with(skips, works, n - 1) + progress_events(works[n - 1]) + success_events_spec(skips, n - 1)
    }
}

/// The progress values among `events`, in order.
pub open spec fn progress_values(events: Seq<EventView>) -> Seq<Progress>
    decreases events.len(),
{
    if events.len() == 0 {
        Seq::empty()
    } else {
        let prev = progress_values(events.drop_last());
        match events.last() {
            EventView::Progress(p) => prev.push(p),
            _ => prev,
        }
    }
}

/// Each value is no further along than the next.
pub open spec fn nondecreasing(ps: Seq<Progress>) -> bool {
    forall|i: int| 0 <= i < ps.len() - 1 ==> progress_le(#[trigger] ps[i], ps[i + 1])
}

/// Progress values as a progress tracker reports them during step `k`: each
/// belongs to step `k`, lies between 0 and 1, and none goes back.
pub open spec fn step_work_progress(k: int, ps: Seq<Progress>) -> bool {
    &&& forall|i: int| 0 <= i < ps.len() ==> (#[trigger] ps[i]).steps_done == k && progress_valid(ps[i])
    &&& nondecreasing(ps)
}

proof fn lemma_progress_values_concat(a: Seq<EventView>, b: Seq<EventView>)
    ensures
        progress_values(a + b) == progress_values(a) + progress_values(b),
    decreases b.len(),
{
    if b.len() == 0 {
        assert(a + b =~= a);
        assert(progress_values(a) + progress_values(b) =~= progress_values(a));
    } else {
        lemma_progress_values_concat(a, b.drop_last());
        assert((a + b).drop_last() =~= a + b.drop_last());
        assert((a + b).last() == b.last());
        match b.last() {
            EventView::Progress(p) => {
                assert(progress_values(a) + progress_values(b) =~= (progress_values(a) + progress_values(
                    b.drop_last(),
                )).push(p));
            },
            _ => {},
        }
    }
}

proof fn lemma_progress_values_of_progress(ps: Seq<Progress>)
    ensures
        progress_values(progress_events(ps)) == ps,
    decreases ps.len(),
{
    if ps.len() > 0 {
        lemma_progress_values_of_progress(ps.drop_last());
        assert(progress_events(ps).drop_last() =~= progress_events(ps.drop_last()));
        assert(progress_events(ps).last() == EventView::Progress(ps.last()));
        assert(ps.drop_last().push(ps.last()) =~= ps);
    } else {
        assert(progress_events(ps) =~= Seq::<EventView>::empty());
    }
}

proof fn lemma_progress_values_small(events: Seq<EventView>)
    requires
        events.len() <= 4,
    ensures
        progress_values(events) == (if events.len() == 0 {
            Seq::<Progress>::empty()
        } else {
            progress_values(events.drop_last()) + match events.last() {
                EventView::Progress(p) => seq![p],
                _ => Seq::<Progress>::empty(),
            }
        }),
{
    if events.len() > 0 {
        match events.last() {
            EventView::Progress(p) => {
                assert(progress_values(events.drop_last()).push(p) =~= progress_values(events.drop_last()) + seq![p]);
            },
            _ => {
                assert(progress_values(events.drop_last()) + Seq::<Progress>::empty() =~= progress_values(events.drop_last()));
            },
        }
    }
}

proof fn lemma_progress_values_start(k: int)
    requires
        0 <= k < STEP_COUNT,
    ensures
        progress_values(start_events_spec(k)) == Seq::<Progress>::empty(),
{
    let ev = start_events_spec(k);
    lemma_progress_values_small(ev);
    lemma_progress_values_small(ev.drop_last());
    if ev.len() == 2 {
        assert(ev.drop_last().drop_last() =~= Seq::<EventView>::empty());
    } else {
        assert(ev.drop_last() =~= Seq::<EventView>::empty());
    }
}

proof fn lemma_progress_values_success(skips: StepSkips, k: int)
    requires
        0 <= k < STEP_COUNT,
    ensures
        progress_values(success_events_spec(skips, k)) == seq![whole_steps(k + 1)],
{
    let ev = success_events_spec(skips, k);
    if k == STEP_FINAL {
        let e1 = finished_as(k, StepStatus::Done);
        let e2 = EventView::Progress(whole_steps(STEP_COUNT as int));
        let e3 = EventView::Done(None);
        assert(ev =~= seq![e1, e2, e3]);
        lemma_progress_values_small(seq![e1, e2, e3]);
        assert(seq![e1, e2, e3].drop_last() =~= seq![e1, e2]);
        lemma_progress_values_small(seq![e1, e2]);
        assert(seq![e1, e2].drop_last() =~= seq![e1]);
        lemma_progress_values_small(seq![e1]);
        assert(seq![e1].drop_last() =~= Seq::<EventView>::empty());
        assert(progress_values(ev) =~= seq![whole_steps(k + 1)]);
    } else {
        let (e1, e2) = if k == STEP_BASE {
            (finished_as(0, StepStatus::Done), EventView::Progress(whole_steps(1)))
        } else {
            (EventView::Progress(whole_steps(k + 1)), finished_as(k, success_status(skips, k)))
        };
        assert(ev =~= seq![e1, e2] + start_events_spec(k + 1));
        lemma_progress_values_concat(seq![e1, e2], start_events_spec(k + 1));
        lemma_progress_values_start(k + 1);
        lemma_progress_values_small(seq![e1, e2]);
        assert(seq![e1, e2].drop_last() =~= seq![e1]);
        lemma_progress_values_small(seq![e1]);
        assert(seq![e1].drop_last() =~= Seq::<EventView>::empty());
        assert(progress_values(ev) =~= seq![whole_steps(k + 1)]);
    }
}

proof fn lemma_nondecreasing_concat(a: Seq<Progress>, b: Seq<Progress>)
    requires
        nondecreasing(a),
        nondecreasing(b),
        a.len() > 0 && b.len() > 0 ==> progress_le(a.last(), b[0]),
    ensures
        nondecreasing(a + b),
{
    let c = a + b;
    assert forall|i: int| 0 <= i < c.len() - 1 implies progress_le(#[trigger] c[i], c[i + 1]) by {
        if i < a.len() - 1 {
            assert(c[i] == a[i] && c[i + 1] == a[i + 1]);
        } else if i == a.len() - 1 {
            assert(c[i] == a.last() && c[i + 1] == b[0]);
        } else {
            let j = i - a.len();
            assert(c[i] == b[j] && c[i + 1] == b[j + 1]);
        }
    }
}

proof fn lemma_whole_steps_le(a: int, b: int)
    requires
        0 <= a <= b <= STEP_COUNT,
    ensures
        progress_le(whole_steps(a), whole_steps(b)),
{
    let wa = whole_steps(a);
    let wb = whole_steps(b);
    assert(wa.steps_done == a && wa.out_of == 1 && wa.done == 0);
    assert(wb.steps_done == b && wb.out_of == 1 && wb.done == 0);
    assert(progress_num(wa) == a);
    assert(progress_num(wb) == b);
    assert(progress_den(wa) == STEP_COUNT);
    assert(progress_den(wb) == STEP_COUNT);
    assert(a * STEP_COUNT <= b * STEP_COUNT) by (nonlinear_arith)
        requires
            a <= b,
    ;
}

/// The progress values reported by the first `n` steps of a run: the values of
/// each step's work, each followed by the whole-step value that ends the step.
proof fn lemma_run_progress(skips: StepSkips, works: Seq<Seq<Progress>>, n: int)
    requires
        0 <= n <= STEP_COUNT,
        works.len() >= n,
        forall|k: int| 0 <= k < n ==> step_work_progress(k, #[trigger] works[k]),
    ensures
        nondecreasing(progress_values(run_prefix_with(skips, works, n))),
        n > 0 ==> progress_values(run_prefix_with(skips, works, n)).len() > 0
            && progress_values(run_prefix_with(skips, works, n)).last() == whole_steps(n),
        n == 0 ==> progress_values(run_prefix_with(skips, works, n)).len() == 0,
    decreases n,
{
    if n == 0 {
        lemma_progress_values_start(0);
    } else {
        lemma_run_progress(skips, works, n - 1);
        let prev = run_prefix_with(skips, works, n - 1);
        let w = works[n - 1];
        let a = prev + progress_events(w);
        lemma_progress_values_concat(prev, progress_events(w));
        lemma_progress_values_concat(a, success_events_spec(skips, n - 1));
        lemma_progress_values_of_progress(w);
        lemma_progress_values_success(skips, n - 1);
        let pv = progress_values(prev);
        assert(step_work_progress(n - 1, w));
        if w.len() > 0 {
            law_step_progress_between(w[0]);
            law_step_progress_between(w.last());
            if n - 1 > 0 {
                assert(pv.last() == whole_steps(n - 1));
            }
        }
        lemma_nondecreasing_concat(pv, w);
        let pw = pv + w;
        if pw.len() > 0 {
            if w.len() > 0 {
                assert(pw.last() == w.last());
            } else {
                assert(pw.last() == pv.last());
                assert(pv.last() == whole_steps(n - 1));
                lemma_whole_steps_le(n - 1, n);
            }
        }
        assert(nondecreasing(seq![whole_steps(n)]));
        lemma_nondecreasing_concat(pw, seq![whole_steps(n)]);
        assert(progress_values(run_prefix_with(skips, works, n)) == pw + seq![whole_steps(n)]);
    }
}

/// Over a whole run, with each step's work reporting its progress as a
/// progress tracker does, the progress shown never goes back, and it ends at
/// the end of the last step that succeeded.
pub proof fn law_run_progress_nondecreasing(skips: StepSkips, works: Seq<Seq<Progress>>, n: int)
    requires
        0 <= n <= STEP_COUNT,
        works.len() >= n,
        forall|k: int| 0 <= k < n ==> step_work_progress(k, #[trigger] works[k]),
    ensures
        nondecreasing(progress_values(run_prefix_with(skips, works, n))),
        n > 0 ==> progress_values(run_prefix_with(skips, works, n)).last() == whole_steps(n),
{
    lemma_run_progress(skips, works, n);
}

// ---------------------------------------------------------------------------
// The work of each step
// ---------------------------------------------------------------------------

/// An external command: the program, its arguments and its working directory
/// (the current one when `None`).
#[derive(Clone, Debug)]
pub struct CommandSpec {
    pub program: String,
    pub args: Vec<String>,
    pub cwd: Option<String>,
}

pub struct CommandView {
    pub program: Seq<char>,
    pub args: Seq<Seq<char>>,
    pub cwd: Option<Seq<char>>,
}

impl View for CommandSpec {
    type V = CommandView;

    open spec fn view(&self) -> CommandView {
        CommandView { program: self.program@, args: self.args.deep_view(), cwd: opt_view(self.cwd) }
    }
}

pub open spec fn command_views(cs: Seq<CommandSpec>) -> Seq<CommandView> {
    cs.map_values(|c: CommandSpec| c@)
}

/// `sudo pacman -S ...` for the packages.
pub open spec fn sudo_pacman_spec(packages: Seq<Seq<char>>) -> CommandView {
    CommandView { program: "sudo"@, args: pacman_args_spec(packages), cwd: None }
}

/// `yay -S ...` for the packages.
pub open spec fn yay_install_spec(packages: Seq<Seq<char>>) -> CommandView {
    CommandView { program: "yay"@, args: yay_args_spec(packages), cwd: None }
}

fn sudo_pacman(packages: &Vec<String>) -> (r: CommandSpec)
    ensures
        r@ == sudo_pacman_spec(packages.deep_view()),
{
    CommandSpec { program: "sudo".to_string(), args: build_pacman_args(packages), cwd: None }
}

fn yay_install(packages: &Vec<String>) -> (r: CommandSpec)
    ensures
        r@ == yay_install_spec(packages.deep_view()),
{
    CommandSpec { program: "yay".to_string(), args: build_yay_args(packages), cwd: None }
}

/// What one package-installing step does.
pub enum StepWork {
    /// Nothing to install: only this line is logged.
    Skip(String),
    /// Log the lines, make sure sudo works, then run the commands in order,
    /// feeding their output to the tracker.
    Install { logs: Vec<String>, commands: Vec<CommandSpec>, tracker: ProgressTracker },
}

/// The commands that install a selection: pacman for its repository packages
/// and, when `with_aur`, yay for its AUR packages; a command with nothing to
/// install is left out.
pub open spec fn selection_commands_spec(pacman: Seq<Seq<char>>, yay: Seq<Seq<char>>, with_aur: bool) -> Seq<CommandView> {
    (if pacman.len() > 0 { seq![sudo_pacman_spec(pacman)] } else { Seq::empty() }) + (if with_aur && yay.len() > 0 {
        seq![yay_install_spec(yay)]
    } else {
        Seq::empty()
    })
}

/// The work of the base step: log the packages, then install them with pacman.
pub fn base_step_work(packages: &Vec<String>) -> (r: StepWork)
    ensures
        match r {
            StepWork::Install { logs, commands, tracker } => {
                &&& logs.deep_view() == seq!["Installing base packages..."@, "Packages: "@ + seq_join(packages.deep_view(), ", "@)]
                &&& command_views(commands@) == seq![sudo_pacman_spec(packages.deep_view())]
                &&& tracker.watched() == packages.deep_view()
                &&& tracker.seen().len() == 0
                &&& tracker.steps_done() == STEP_BASE
            },
            StepWork::Skip(_) => false,
        },
{
    let mut listing = "Packages: ".to_string();
    listing.append(join(packages, ", ").as_str());
    let logs = vec!["Installing base packages...".to_string(), listing];
    let commands = vec![sudo_pacman(packages)];
    assert(logs.deep_view() =~= seq!["Installing base packages..."@, "Packages: "@ + seq_join(packages.deep_view(), ", "@)]);
    assert(command_views(commands@) =~= seq![sudo_pacman_spec(packages.deep_view())]);
    StepWork::Install { logs, commands, tracker: ProgressTracker::new(packages, STEP_BASE) }
}

/// The work of the Hyprland step: install the Hyprland packages with pacman.
pub fn hyprland_step_work(packages: &Vec<String>) -> (r: StepWork)
    ensures
        match r {
            StepWork::Install { logs, commands, tracker } => {
                &&& logs.deep_view() == seq!["Installing Hyprland packages..."@]
                &&& command_views(commands@) == seq![sudo_pacman_spec(packages.deep_view())]
                &&& tracker.watched() == packages.deep_view()
                &&& tracker.seen().len() == 0
                &&& tracker.steps_done() == STEP_HYPRLAND
            },
            StepWork::Skip(_) => false,
        },
{
    let logs = vec!["Installing Hyprland packages...".to_string()];
    let commands = vec![sudo_pacman(packages)];
    assert(logs.deep_view() =~= seq!["Installing Hyprland packages..."@]);
    assert(command_views(commands@) =~= seq![sudo_pacman_spec(packages.deep_view())]);
    StepWork::Install { logs, commands, tracker: ProgressTracker::new(packages, STEP_HYPRLAND) }
}

fn selection_step_work(
    selection: &PackageSelection,
    with_aur: bool,
    step: usize,
    skip_log: &str,
    start_log: &str,
) -> (r: StepWork)
    requires
        step < STEP_COUNT,
    ensures
        match r {
            StepWork::Skip(log) => selection@.pacman.len() == 0 && selection@.yay.len() == 0 && log@ == skip_log@,
            StepWork::Install { logs, commands, tracker } => {
                &&& !(selection@.pacman.len() == 0 && selection@.yay.len() == 0)
                &&& logs.deep_view() == seq![start_log@]
                &&& command_views(commands@) == selection_commands_spec(selection@.pacman, selection@.yay, with_aur)
                &&& tracker.watched() == if with_aur { selection@.pacman + selection@.yay } else { selection@.pacman }
                &&& tracker.seen().len() == 0
                &&& tracker.steps_done() == step
            },
        },
{
    if selection.is_empty() {
        return StepWork::Skip(skip_log.to_string());
    }
    let logs = vec![start_log.to_string()];
    assert(logs.deep_view() =~= seq![start_log@]);
    let tracker = ProgressTracker::for_selection(selection, with_aur, step);
    let mut commands: Vec<CommandSpec> = Vec::new();
    if selection.pacman.len() > 0 {
        commands.push(sudo_pacman(&selection.pacman));
    }
    if with_aur && selection.yay.len() > 0 {
        commands.push(yay_install(&selection.yay));
    }
    assert(command_views(commands@) =~= selection_commands_spec(selection@.pacman, selection@.yay, with_aur));
    StepWork::Install { logs, commands, tracker }
}

/// The work of the browser step: repository and AUR packages.
pub fn browsers_step_work(selection: &PackageSelection) -> (r: StepWork)
    ensures
        match r {
            StepWork::Skip(log) => selection@.pacman.len() == 0 && selection@.yay.len() == 0 && log@ == "Skipping browser install."@,
            StepWork::Install { logs, commands, tracker } => {
                &&& !(selection@.pacman.len() == 0 && selection@.yay.len() == 0)
                &&& logs.deep_view() == seq!["Installing web browsers..."@]
                &&& command_views(commands@) == selection_commands_spec(selection@.pacman, selection@.yay, true)
                &&& tracker.watched() == selection@.pacman + selection@.yay
                &&& tracker.seen().len() == 0
                &&& tracker.steps_done() == STEP_BROWSERS
            },
        },
{
    selection_step_work(selection, true, STEP_BROWSERS, "Skipping browser install.", "Installing web browsers...")
}

/// The work of the terminal step: only repository packages are installed.
pub fn terminals_step_work(selection: &PackageSelection) -> (r: StepWork)
    ensures
        match r {
            StepWork::Skip(log) => selection@.pacman.len() == 0 && selection@.yay.len() == 0 && log@ == "Skipping terminal install."@,
            StepWork::Install { logs, commands, tracker } => {
                &&& !(selection@.pacman.len() == 0 && selection@.yay.len() == 0)
                &&& logs.deep_view() == seq!["Installing terminals..."@]
                &&& command_views(commands@) == selection_commands_spec(selection@.pacman, selection@.yay, false)
                &&& tracker.watched() == selection@.pacman
                &&& tracker.seen().len() == 0
                &&& tracker.steps_done() == STEP_TERMINALS
            },
        },
{
    selection_step_work(selection, false, STEP_TERMINALS, "Skipping terminal install.", "Installing terminals...")
}

/// The work of the editor step: repository and AUR packages.
pub fn editors_step_work(selection: &PackageSelection) -> (r: StepWork)
    ensures
        match r {
            StepWork::Skip(log) => selection@.pacman.len() == 0 && selection@.yay.len() == 0 && log@ == "Skipping editor install."@,
            StepWork::Install { logs, commands, tracker } => {
                &&& !(selection@.pacman.len() == 0 && selection@.yay.len() == 0)
                &&& logs.deep_view() == seq!["Installing editors..."@]
                &&& command_views(commands@) == selection_commands_spec(selection@.pacman, selection@.yay, true)
                &&& tracker.watched() == selection@.pacman + selection@.yay
                &&& tracker.seen().len() == 0
                &&& tracker.steps_done() == STEP_EDITORS
            },
        },
{
    selection_step_work(selection, true, STEP_EDITORS, "Skipping editor install.", "Installing editors...")
}

// ---------------------------------------------------------------------------
// yay
// ---------------------------------------------------------------------------

/// How yay, the AUR helper, gets installed.
pub struct YayPlan {
    pub start_log: String,
    /// Installs what building yay needs.
    pub dependencies: CommandSpec,
    /// Succeeds when yay is already installed.
    pub probe: CommandSpec,
    pub present_log: String,
    pub absent_log: String,
    /// Where yay is built; removed before cloning and after building.
    pub build_dir: String,
    pub clone: CommandSpec,
    pub build: CommandSpec,
}

pub open spec fn yay_build_dir_spec() -> Seq<char> {
    "/tmp/yay-bin"@
}

/// The steps of installing yay.
pub fn yay_plan() -> (r: YayPlan)
    ensures
        r.start_log@ == "Installing yay (AUR helper)..."@,
        r.dependencies@ == sudo_pacman_spec(seq!["git"@, "base-devel"@]),
        r.probe@ == (CommandView { program: "yay"@, args: seq!["--version"@], cwd: None }),
        r.present_log@ == "yay is already installed, skipping."@,
        r.absent_log@ == "yay not found, installing..."@,
        r.build_dir@ == yay_build_dir_spec(),
        r.clone@ == (CommandView {
            program: "git"@,
            args: seq!["clone"@, "https://aur.archlinux.org/yay-bin.git"@, yay_build_dir_spec()],
            cwd: None,
        }),
        r.build@ == (CommandView {
            program: "makepkg"@,
            args: seq!["-si"@, "--noconfirm"@, "--needed"@, "--syncdeps"@],
            cwd: Some(yay_build_dir_spec()),
        }),
{
    let deps = name_list(&["git", "base-devel"]);
    assert(deps.deep_view() =~= seq!["git"@, "base-devel"@]);
    let probe_args = name_list(&["--version"]);
    assert(probe_args.deep_view() =~= seq!["--version"@]);
    let clone_args = name_list(&["clone", "https://aur.archlinux.org/yay-bin.git", "/tmp/yay-bin"]);
    assert(clone_args.deep_view() =~= seq!["clone"@, "https://aur.archlinux.org/yay-bin.git"@, yay_build_dir_spec()]);
    let build_args = name_list(&["-si", "--noconfirm", "--needed", "--syncdeps"]);
    assert(build_args.deep_view() =~= seq!["-si"@, "--noconfirm"@, "--needed"@, "--syncdeps"@]);
    YayPlan {
        start_log: "Installing yay (AUR helper)...".to_string(),
        dependencies: sudo_pacman(&deps),
        probe: CommandSpec { program: "yay".to_string(), args: probe_args, cwd: None },
        present_log: "yay is already installed, skipping.".to_string(),
        absent_log: "yay not found, installing...".to_string(),
        build_dir: "/tmp/yay-bin".to_string(),
        clone: CommandSpec { program: "git".to_string(), args: clone_args, cwd: None },
        build: CommandSpec { program: "makepkg".to_string(), args: build_args, cwd: Some("/tmp/yay-bin".to_string()) },
    }
}

/// A copy of a command.
fn copy_command(c: &CommandSpec) -> (r: CommandSpec)
    ensures
        r@ == c@,
{
    let mut args: Vec<String> = Vec::new();
    assert(args.deep_view() =~= Seq::<Seq<char>>::empty());
    append_all(&mut args, &c.args);
    assert(args.deep_view() =~= c.args.deep_view());
    let cwd = match &c.cwd {
        Some(d) => Some(d.clone()),
        None => None,
    };
    CommandSpec { program: c.program.clone(), args, cwd }
}

/// What follows the check whether yay is installed: when it is, a log line and
/// nothing to run; otherwise a log line, then cloning and building yay.
pub fn yay_after_probe(plan: &YayPlan, probe_ok: bool) -> (r: (String, Vec<CommandSpec>))
    ensures
        probe_ok ==> r.0@ == plan.present_log@ && r.1@.len() == 0,
        !probe_ok ==> r.0@ == plan.absent_log@ && command_views(r.1@) == seq![plan.clone@, plan.build@],
{
    if probe_ok {
        (plan.present_log.clone(), Vec::new())
    } else {
        let commands = vec![copy_command(&plan.clone), copy_command(&plan.build)];
        assert(command_views(commands@) =~= seq![plan.clone@, plan.build@]);
        (plan.absent_log.clone(), commands)
    }
}

/// yay refuses to be built by root: the check fails when the `USER` variable
/// says `root` or the effective user id is root's.
pub fn yay_user_check(user: Option<&str>, euid_is_root: bool) -> (r: Result<(), String>)
    ensures
        match r {
            Ok(()) => !euid_is_root && !(user matches Some(u) && u@ == "root"@),
            Err(msg) => (euid_is_root || (user matches Some(u) && u@ == "root"@))
                && msg@ == "yay install must run as a non-root user"@,
        },
{
    let is_root_user = match user {
        Some(u) => chars_eq(&chars_of(u), &chars_of("root")),
        None => false,
    };
    if is_root_user || euid_is_root {
        Err("yay install must run as a non-root user".to_string())
    } else {
        Ok(())
    }
}

// ---------------------------------------------------------------------------
// nvm
// ---------------------------------------------------------------------------

pub open spec fn nvm_init_line_spec() -> Seq<char> {
    "source /usr/share/nvm/init-nvm.sh"@
}

/// The work of the nvm step before the shell is set up: install the nvm package
/// with yay.
pub fn nvm_step_work(install: bool) -> (r: StepWork)
    ensures
        match r {
            StepWork::Skip(log) => !install && log@ == "Skipping nvm install."@,
            StepWork::Install { logs, commands, tracker } => {
                &&& install
                &&& logs.deep_view() == seq!["Installing nvm (Node Version Manager)..."@]
                &&& command_views(commands@) == seq![yay_install_spec(seq!["nvm"@])]
                &&& tracker.watched().len() == 0
                &&& tracker.steps_done() == STEP_NVM
            },
        },
{
    if !install {
        return StepWork::Skip("Skipping nvm install.".to_string());
    }
    let logs = vec!["Installing nvm (Node Version Manager)...".to_string()];
    assert(logs.deep_view() =~= seq!["Installing nvm (Node Version Manager)..."@]);
    let pkgs = name_list(&["nvm"]);
    assert(pkgs.deep_view() =~= seq!["nvm"@]);
    let commands = vec![yay_install(&pkgs)];
    assert(command_views(commands@) =~= seq![yay_install_spec(seq!["nvm"@])]);
    let none: Vec<String> = Vec::new();
    let tracker = ProgressTracker::new(&none, STEP_NVM);
    StepWork::Install { logs, commands, tracker }
}

/// The shell script that installs the latest Node.js LTS through nvm and
/// enables pnpm, after loading the shell's startup file.
pub open spec fn nvm_script_spec(rc_file: Seq<char>) -> Seq<char> {
    "source "@ + rc_file + " && source /usr/share/nvm/init-nvm.sh && nvm install --lts && nvm use --lts && corepack enable && corepack prepare pnpm@latest --activate"@
}

/// The command that runs the nvm script in the user's login shell: zsh when the
/// `SHELL` path ends in `zsh`, bash otherwise (also when `SHELL` is unset).
pub fn nvm_shell_command(shell: Option<&str>) -> (r: CommandSpec)
    ensures
        ({
            let uses_zsh = match shell {
                Some(s) => ends_with(s@, "zsh"@),
                None => false,
            };
            r@ == CommandView {
                program: if uses_zsh { "zsh"@ } else { "bash"@ },
                args: seq!["-lc"@, nvm_script_spec(if uses_zsh { "~/.zshrc"@ } else { "~/.bashrc"@ })],
                cwd: None,
            }
        }),
{
    let uses_zsh = match shell {
        Some(s) => ends_with_chars(&chars_of(s), &chars_of("zsh")),
        None => {
            proof {
                reveal_strlit("/bin/bash");
                reveal_strlit("zsh");
            }
            let b = ends_with_chars(&chars_of("/bin/bash"), &chars_of("zsh"));
            assert("/bin/bash"@.subrange(6, 9)[0] != "zsh"@[0]);
            assert(!b);
            b
        },
    };
    let program = if uses_zsh { "zsh".to_string() } else { "bash".to_string() };
    let rc_file = if uses_zsh { "~/.zshrc" } else { "~/.bashrc" };
    let script = concat(
        concat("source ", rc_file).as_str(),
        " && source /usr/share/nvm/init-nvm.sh && nvm install --lts && nvm use --lts && corepack enable && corepack prepare pnpm@latest --activate",
    );
    let mut args = vec!["-lc".to_string()];
    args.push(script);
    let r = CommandSpec { program, args, cwd: None };
    assert(r.args.deep_view() =~= seq!["-lc"@, nvm_script_spec(if uses_zsh { "~/.zshrc"@ } else { "~/.bashrc"@ })]);
    r
}

/// What to do with one shell startup file.
pub struct RcUpdate {
    /// Text to append to the file, if any.
    pub append: Option<String>,
    pub log: String,
}

/// The update of a shell startup file with the given contents, at `path`: the
/// nvm init line is appended, under a comment, unless the file holds it already.
pub fn nvm_rc_update(contents: &str, path: &str) -> (r: RcUpdate)
    ensures
        has_substring(contents@, nvm_init_line_spec()) ==> {
            &&& r.append is None
            &&& r.log@ == "nvm init already present in "@ + path@ + "."@
        },
        !has_substring(contents@, nvm_init_line_spec()) ==> {
            &&& opt_view(r.append) == Some("\n# Load nvm\n"@ + nvm_init_line_spec() + "\n"@)
            &&& r.log@ == "Adding nvm init to "@ + path@ + "."@
        },
{
    let present = contains_chars(&chars_of(contents), &chars_of("source /usr/share/nvm/init-nvm.sh"));
    if present {
        RcUpdate { append: None, log: concat(concat("nvm init already present in ", path).as_str(), ".") }
    } else {
        RcUpdate {
            append: Some(concat(concat("\n# Load nvm\n", "source /usr/share/nvm/init-nvm.sh").as_str(), "\n")),
            log: concat(concat("Adding nvm init to ", path).as_str(), "."),
        }
    }
}

/// The log line for creating a missing shell startup file.
pub fn nvm_rc_create_log(path: &str) -> (r: String)
    ensures
        r@ == "Creating "@ + path@ + " for nvm setup."@,
{
    concat(concat("Creating ", path).as_str(), " for nvm setup.")
}

/// The log line once nvm and Node.js are installed.
pub fn nvm_done_log() -> (r: String)
    ensures
        r@ == "nvm and Node.js LTS installation complete."@,
{
    "nvm and Node.js LTS installation complete.".to_string()
}

} // verus!
