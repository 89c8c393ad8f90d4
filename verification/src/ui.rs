use vstd::prelude::*;
use std::collections::VecDeque;
use crate::model::{Step, StepStatus, SPINNER_LEN, STEP_COUNT};
use crate::installer::{spec_step_names, step_names, STEP_BROWSERS, STEP_EDITORS, STEP_TERMINALS};
use crate::text::{concat, join, opt_view, seq_join, string_of};

verus! {

// ---------------------------------------------------------------------------
// Numbers
// ---------------------------------------------------------------------------

pub open spec fn digit_char(d: int) -> char {
    (('0' as u32) + d) as char
}

/// The decimal digits of `n`, without leading zeros.
pub open spec fn decimal_spec(n: nat) -> Seq<char>
    decreases n,
{
    if n < 10 {
        seq![digit_char(n as int)]
    } else {
        decimal_spec(n / 10) + seq![digit_char((n % 10) as int)]
    }
}

fn digit(d: usize) -> (r: char)
    requires
        d < 10,
    ensures
        r == digit_char(d as int),
{
    let b: u8 = 48 + (d as u8);
    b as char
}

/// The decimal representation of `n`.
pub fn decimal(n: usize) -> (r: String)
    ensures
        r@ == decimal_spec(n as nat),
    decreases n,
{
    if n < 10 {
        let cs = vec![digit(n)];
        assert(cs@ =~= decimal_spec(n as nat));
        string_of(&cs)
    } else {
        let head = decimal(n / 10);
        let cs = vec![digit(n % 10)];
        let tail = string_of(&cs);
        let r = concat(head.as_str(), tail.as_str());
        assert(r@ =~= decimal_spec(n as nat));
        r
    }
}

// ---------------------------------------------------------------------------
// Multiple-choice selector
// ---------------------------------------------------------------------------

/// A key press on a selector screen.
#[derive(Clone, Copy, Debug, PartialEq, Eq, Structural)]
pub enum SelectorKey {
    Up,
    Down,
    /// Space.
    Toggle,
    Enter,
    /// `s`.
    Skip,
    /// `q` or Escape.
    Quit,
    /// A digit key, with its value.
    Digit(u32),
    Other,
}

/// What a selector screen does after a key.
#[derive(Clone, Debug, PartialEq, Eq)]
pub enum SelectorOutcome {
    /// Stay on the screen.
    Continue,
    /// Install the choices with these flags.
    Confirm(Vec<bool>),
    /// Install none of the choices.
    SkipAll,
    /// Leave the installer.
    Quit,
}

/// The state of a selector over a list of choices: the highlighted row and
/// which rows are ticked.
pub struct SelectorState {
    pub cursor: usize,
    pub selected: Vec<bool>,
}

/// Flips entry `i`.
pub open spec fn toggled(s: Seq<bool>, i: int) -> Seq<bool> {
    s.update(i, !s[i])
}

/// The state after a key, and whether the screen is left, with what.
pub open spec fn selector_next(cursor: int, selected: Seq<bool>, key: SelectorKey) -> (int, Seq<bool>) {
    let n = selected.len() as int;
    match key {
        SelectorKey::Up => if cursor > 0 { (cursor - 1, selected) } else { (cursor, selected) },
        SelectorKey::Down => if cursor + 1 < n { (cursor + 1, selected) } else { (cursor, selected) },
        SelectorKey::Toggle => if 0 <= cursor < n { (cursor, toggled(selected, cursor)) } else { (cursor, selected) },
        SelectorKey::Digit(d) => if 0 < d <= n { (d - 1, toggled(selected, d - 1)) } else { (cursor, selected) },
        _ => (cursor, selected),
    }
}

/// How the selector keys move and tick: Up moves the cursor one row up and
/// Down one row down, each staying put at its end of the list, so that away
/// from the ends one undoes the other; moving never changes the ticks. Space
/// flips the tick of the highlighted row alone, so pressing it twice changes
/// nothing; a digit `d` within the list highlights row `d - 1` and flips its
/// tick alone.
pub proof fn law_selector_moves(cursor: int, selected: Seq<bool>, d: u32)
    requires
        0 <= cursor < selected.len(),
    ensures
        cursor > 0 ==> selector_next(cursor, selected, SelectorKey::Up) == (cursor - 1, selected),
        cursor == 0 ==> selector_next(cursor, selected, SelectorKey::Up) == (cursor, selected),
        cursor + 1 < selected.len() ==> selector_next(cursor, selected, SelectorKey::Down) == (
            cursor + 1,
            selected,
        ),
        cursor + 1 == selected.len() ==> selector_next(cursor, selected, SelectorKey::Down) == (
            cursor,
            selected,
        ),
        cursor > 0 ==> {
            let up = selector_next(cursor, selected, SelectorKey::Up);
            selector_next(up.0, up.1, SelectorKey::Down) == (cursor, selected)
        },
        cursor + 1 < selected.len() ==> {
            let down = selector_next(cursor, selected, SelectorKey::Down);
            selector_next(down.0, down.1, SelectorKey::Up) == (cursor, selected)
        },
        ({
            let t = selector_next(cursor, selected, SelectorKey::Toggle);
            &&& t.0 == cursor
            &&& t.1.len() == selected.len()
            &&& t.1[cursor] == !selected[cursor]
            &&& forall|i: int| 0 <= i < selected.len() && i != cursor ==> t.1[i] == selected[i]
            &&& selector_next(t.0, t.1, SelectorKey::Toggle) == (cursor, selected)
        }),
        1 <= d <= selected.len() ==> {
            let t = selector_next(cursor, selected, SelectorKey::Digit(d));
            &&& t.0 == d - 1
            &&& t.1.len() == selected.len()
            &&& t.1[d - 1] == !selected[d - 1]
            &&& forall|i: int| 0 <= i < selected.len() && i != d - 1 ==> t.1[i] == selected[i]
        },
{
    let t = selector_next(cursor, selected, SelectorKey::Toggle);
    assert(toggled(t.1, cursor) =~= selected);
}

impl SelectorState {
    /// A selector over `count` choices, ticked as in `initial` where it has an
    /// entry, with the first row highlighted.
    pub fn new(count: usize, initial: Option<&[bool]>) -> (r: Self)
        ensures
            r.cursor == 0,
            r.selected@.len() == count,
            forall|i: int| 0 <= i < count ==> r.selected@[i] == match initial {
                Some(f) => i < f@.len() && f@[i],
                None => false,
            },
    {
        let mut selected: Vec<bool> = Vec::new();
        let mut i: usize = 0;
        while i < count
            invariant
                i <= count,
                selected@.len() == i,
                forall|k: int| 0 <= k < i ==> selected@[k] == match initial {
                    Some(f) => k < f@.len() && f@[k],
                    None => false,
                },
            decreases count - i,
        {
            let flag = match initial {
                Some(f) => i < f.len() && f[i],
                None => false,
            };
            selected.push(flag);
            i += 1;
        }
        SelectorState { cursor: 0, selected }
    }

    /// Applies one key press.
    pub fn handle_key(&mut self, key: SelectorKey) -> (r: SelectorOutcome)
        ensures
            match key {
                SelectorKey::Enter => (r matches SelectorOutcome::Confirm(v) && v@ == old(self).selected@)
                    && final(self).selected == old(self).selected && final(self).cursor == old(self).cursor,
                SelectorKey::Skip => r == SelectorOutcome::SkipAll
                    && final(self).selected == old(self).selected && final(self).cursor == old(self).cursor,
                SelectorKey::Quit => r == SelectorOutcome::Quit
                    && final(self).selected == old(self).selected && final(self).cursor == old(self).cursor,
                _ => {
                    &&& r == SelectorOutcome::Continue
                    &&& (final(self).cursor as int, final(self).selected@) == selector_next(
                        old(self).cursor as int,
                        old(self).selected@,
                        key,
                    )
                },
            },
    {
        let n = self.selected.len();
        match key {
            SelectorKey::Up => {
                if self.cursor > 0 {
                    self.cursor = self.cursor - 1;
                }
                SelectorOutcome::Continue
            },
            SelectorKey::Down => {
                if self.cursor < n && self.cursor + 1 < n {
                    self.cursor = self.cursor + 1;
                }
                SelectorOutcome::Continue
            },
            SelectorKey::Toggle => {
                if self.cursor < n {
                    let c = self.cursor;
                    let v = !self.selected[c];
                    self.selected.set(c, v);
                }
                SelectorOutcome::Continue
            },
            SelectorKey::Enter => SelectorOutcome::Confirm(self.selected.clone()),
            SelectorKey::Skip => SelectorOutcome::SkipAll,
            SelectorKey::Quit => SelectorOutcome::Quit,
            SelectorKey::Digit(d) => {
                if d > 0 && (d as usize) <= n {
                    let pos = (d as usize) - 1;
                    let v = !self.selected[pos];
                    self.selected.set(pos, v);
                    self.cursor = pos;
                }
                SelectorOutcome::Continue
            },
            SelectorKey::Other => SelectorOutcome::Continue,
        }
    }

    /// The number of ticked choices.
    pub fn selected_count(&self) -> (r: usize)
        ensures
            r == self.selected@.filter(|b: bool| b).len(),
    {
        let mut count: usize = 0;
        let mut i: usize = 0;
        while i < self.selected.len()
            invariant
                i <= self.selected.len(),
                count == self.selected@.take(i as int).filter(|b: bool| b).len(),
                count <= i,
            decreases self.selected.len() - i,
        {
            proof {
                assert(self.selected@.take(i + 1) =~= self.selected@.take(i as int).push(self.selected@[i as int]));
                self.selected@.take(i as int).lemma_filter_len_push(|b: bool| b, self.selected@[i as int]);
            }
            if self.selected[i] {
                count += 1;
            }
            i += 1;
        }
        assert(self.selected@.take(self.selected.len() as int) =~= self.selected@);
        count
    }
}

// ---------------------------------------------------------------------------
// Single-choice picker
// ---------------------------------------------------------------------------

/// What a picker screen does after a key.
#[derive(Clone, Copy, Debug, PartialEq, Eq, Structural)]
pub enum PickerOutcome {
    Continue,
    /// The highlighted entry was picked.
    Pick(usize),
    Quit,
}

/// A screen that picks one of `count` entries.
pub struct PickerState {
    pub cursor: usize,
    pub count: usize,
}

impl PickerState {
    pub fn new(count: usize) -> (r: Self)
        ensures
            r.cursor == 0,
            r.count == count,
    {
        PickerState { cursor: 0, count }
    }

    /// Applies one key press: Up and Down move within the entries, Enter picks
    /// the highlighted one (when there is one), `q` or Escape leaves.
    pub fn handle_key(&mut self, key: SelectorKey) -> (r: PickerOutcome)
        ensures
            final(self).count == old(self).count,
            match key {
                SelectorKey::Up => r == PickerOutcome::Continue && final(self).cursor == if old(self).cursor > 0 {
                    (old(self).cursor - 1) as usize
                } else {
                    old(self).cursor
                },
                SelectorKey::Down => r == PickerOutcome::Continue && final(self).cursor == if old(self).cursor + 1 < old(self).count {
                    (old(self).cursor + 1) as usize
                } else {
                    old(self).cursor
                },
                SelectorKey::Enter => final(self).cursor == old(self).cursor && r == if old(self).cursor < old(self).count {
                    PickerOutcome::Pick(old(self).cursor)
                } else {
                    PickerOutcome::Continue
                },
                SelectorKey::Quit => r == PickerOutcome::Quit && final(self).cursor == old(self).cursor,
                _ => r == PickerOutcome::Continue && final(self).cursor == old(self).cursor,
            },
    {
        match key {
            SelectorKey::Up => {
                if self.cursor > 0 {
                    self.cursor = self.cursor - 1;
                }
                PickerOutcome::Continue
            },
            SelectorKey::Down => {
                if self.cursor < self.count && self.cursor + 1 < self.count {
                    self.cursor = self.cursor + 1;
                }
                PickerOutcome::Continue
            },
            SelectorKey::Enter => if self.cursor < self.count {
                PickerOutcome::Pick(self.cursor)
            } else {
                PickerOutcome::Continue
            },
            SelectorKey::Quit => PickerOutcome::Quit,
            _ => PickerOutcome::Continue,
        }
    }
}

// ---------------------------------------------------------------------------
// Selector texts
// ---------------------------------------------------------------------------

/// The title of a selector's list: the count of ticked entries, and a hint
/// when none is ticked.
pub fn selector_list_title(noun: &str, count: usize) -> (r: String)
    ensures
        r@ == if count == 0 {
            noun@ + " (0 selected - Enter skips)"@
        } else {
            noun@ + " ("@ + decimal_spec(count as nat) + " selected)"@
        },
{
    if count == 0 {
        concat(noun, " (0 selected - Enter skips)")
    } else {
        let a = concat(noun, " (");
        let b = concat(a.as_str(), decimal(count).as_str());
        concat(b.as_str(), " selected)")
    }
}

/// `s` right-aligned in a field two characters wide.
pub open spec fn pad2(s: Seq<char>) -> Seq<char> {
    if s.len() < 2 {
        Seq::new((2 - s.len()) as nat, |i: int| ' ') + s
    } else {
        s
    }
}

/// The number column of the row at `index`: the one-based row number
/// right-aligned in two characters, then `) `.
pub fn choice_row_prefix(index: usize) -> (r: String)
    requires
        index < usize::MAX,
    ensures
        r@ == pad2(decimal_spec((index + 1) as nat)) + ") "@,
{
    let d = decimal(index + 1);
    proof {
        reveal_strlit(" ");
    }
    let padded = if index + 1 < 10 {
        assert(d@.len() == 1);
        let p = concat(" ", d.as_str());
        assert(p@ =~= pad2(d@));
        p
    } else {
        proof {
            lemma_decimal_len_ge_2((index + 1) as nat);
        }
        d
    };
    concat(padded.as_str(), ") ")
}

proof fn lemma_decimal_len_ge_2(n: nat)
    requires
        n >= 10,
    ensures
        decimal_spec(n).len() >= 2,
{
    assert(decimal_spec(n / 10).len() >= 1) by {
        lemma_decimal_nonempty(n / 10);
    }
}

proof fn lemma_decimal_nonempty(n: nat)
    ensures
        decimal_spec(n).len() >= 1,
    decreases n,
{
    if n >= 10 {
        lemma_decimal_nonempty(n / 10);
    }
}

/// The tick box of a row.
pub fn selection_marker(selected: bool) -> (r: &'static str)
    ensures
        r@ == if selected { "[x]"@ } else { "[ ]"@ },
{
    if selected { "[x]" } else { "[ ]" }
}

/// A piece of the tag after a package row that says where its packages come
/// from, such as `(pacman + AUR)`.
#[derive(Clone, Copy, Debug, PartialEq, Eq, Structural)]
pub enum SourcePart {
    Open,
    Pacman,
    Plus,
    Aur,
    Close,
}

pub open spec fn source_parts_spec(has_pacman: bool, has_yay: bool) -> Seq<SourcePart> {
    seq![SourcePart::Open] + (if has_pacman { seq![SourcePart::Pacman] } else { Seq::empty() }) + (
    if has_pacman && has_yay {
        seq![SourcePart::Plus]
    } else {
        Seq::empty()
    }) + (if has_yay { seq![SourcePart::Aur] } else { Seq::empty() }) + seq![SourcePart::Close]
}

/// The pieces of the source tag of a row whose choice installs repository
/// packages (`has_pacman`) and AUR packages (`has_yay`).
pub fn source_parts(has_pacman: bool, has_yay: bool) -> (r: Vec<SourcePart>)
    ensures
        r@ == source_parts_spec(has_pacman, has_yay),
{
    let mut r: Vec<SourcePart> = Vec::new();
    r.push(SourcePart::Open);
    if has_pacman {
        r.push(SourcePart::Pacman);
    }
    if has_pacman && has_yay {
        r.push(SourcePart::Plus);
    }
    if has_yay {
        r.push(SourcePart::Aur);
    }
    r.push(SourcePart::Close);
    assert(r@ =~= source_parts_spec(has_pacman, has_yay));
    r
}

pub open spec fn source_part_text_spec(part: SourcePart) -> Seq<char> {
    match part {
        SourcePart::Open => "("@,
        SourcePart::Pacman => "pacman"@,
        SourcePart::Plus => " + "@,
        SourcePart::Aur => "AUR"@,
        SourcePart::Close => ")"@,
    }
}

/// The text of a piece of the source tag.
pub fn source_part_text(part: SourcePart) -> (r: &'static str)
    ensures
        r@ == source_part_text_spec(part),
{
    match part {
        SourcePart::Open => "(",
        SourcePart::Pacman => "pacman",
        SourcePart::Plus => " + ",
        SourcePart::Aur => "AUR",
        SourcePart::Close => ")",
    }
}

// ---------------------------------------------------------------------------
// Step list and status line
// ---------------------------------------------------------------------------

pub open spec fn step_icon_spec(status: StepStatus) -> Seq<char> {
    match status {
        StepStatus::Pending => "[ ]"@,
        StepStatus::Running => "[..]"@,
        StepStatus::Done => "[OK]"@,
        StepStatus::Skipped => "[SKIP]"@,
        StepStatus::Failed => "[x]"@,
    }
}

/// The icon of a step status.
pub fn step_icon(status: StepStatus) -> (r: &'static str)
    ensures
        r@ == step_icon_spec(status),
{
    match status {
        StepStatus::Pending => "[ ]",
        StepStatus::Running => "[..]",
        StepStatus::Done => "[OK]",
        StepStatus::Skipped => "[SKIP]",
        StepStatus::Failed => "[x]",
    }
}

pub open spec fn spinner_spec(idx: int) -> Seq<char> {
    if idx == 0 {
        "|"@
    } else if idx == 1 {
        "/"@
    } else if idx == 2 {
        "-"@
    } else {
        "\\"@
    }
}

/// One frame of the spinner.
pub fn spinner_frame(idx: usize) -> (r: &'static str)
    requires
        idx < SPINNER_LEN,
    ensures
        r@ == spinner_spec(idx as int),
{
    if idx == 0 {
        "|"
    } else if idx == 1 {
        "/"
    } else if idx == 2 {
        "-"
    } else {
        "\\"
    }
}

/// The parts of one row of the step list.
pub struct StepLine {
    /// The icon and the step's name.
    pub text: String,
    /// The spinner, shown while the step runs.
    pub spinner: Option<String>,
    /// The error, shown when the step has one.
    pub err: Option<String>,
}

/// The row that shows a step.
pub fn step_line(step: &Step, spinner_idx: usize) -> (r: StepLine)
    requires
        step.status == StepStatus::Running ==> spinner_idx < SPINNER_LEN,
    ensures
        r.text@ == step_icon_spec(step.status) + " "@ + step.name@,
        opt_view(r.spinner) == if step.status == StepStatus::Running {
            Some(" "@ + spinner_spec(spinner_idx as int))
        } else {
            None
        },
        opt_view(r.err) == match step.err {
            Some(e) => Some(" ("@ + e@ + ")"@),
            None => None,
        },
{
    let text = concat(concat(step_icon(step.status), " ").as_str(), step.name.as_str());
    let spinner = if step.status == StepStatus::Running {
        Some(concat(" ", spinner_frame(spinner_idx)))
    } else {
        None
    };
    let err = match &step.err {
        Some(e) => Some(concat(concat(" (", e.as_str()).as_str(), ")")),
        None => None,
    };
    StepLine { text, spinner, err }
}

/// How the status line looks.
#[derive(Clone, Copy, Debug, PartialEq, Eq, Structural)]
pub enum StatusTone {
    Failed,
    Complete,
    Working,
}

/// The status line's text.
pub fn status_message(done: bool, failed: bool) -> (r: &'static str)
    ensures
        r@ == if done {
            if failed { "Installation failed. Press q to quit."@ } else { "Installation complete. Press q to quit."@ }
        } else {
            "Press q to quit."@
        },
{
    if done {
        if failed {
            "Installation failed. Press q to quit."
        } else {
            "Installation complete. Press q to quit."
        }
    } else {
        "Press q to quit."
    }
}

/// The status line's look: an error shows as failed even before the run is done.
pub fn status_tone(done: bool, failed: bool) -> (r: StatusTone)
    ensures
        r == if failed {
            StatusTone::Failed
        } else if done {
            StatusTone::Complete
        } else {
            StatusTone::Working
        },
{
    if failed {
        StatusTone::Failed
    } else if done {
        StatusTone::Complete
    } else {
        StatusTone::Working
    }
}

// ---------------------------------------------------------------------------
// Review and step names
// ---------------------------------------------------------------------------

/// Labels as shown on the review screen: `None`, or the labels joined by commas.
pub open spec fn labels_text_spec(labels: Seq<Seq<char>>) -> Seq<char> {
    if labels.len() == 0 {
        "None"@
    } else {
        seq_join(labels, ", "@)
    }
}

pub fn format_labels(labels: &Vec<String>) -> (r: String)
    ensures
        r@ == labels_text_spec(labels.deep_view()),
{
    if labels.len() == 0 {
        "None".to_string()
    } else {
        join(labels, ", ")
    }
}

/// One line of the review screen.
#[derive(Clone, Debug)]
pub struct ReviewItem {
    pub label: String,
    pub value: String,
}

pub struct ReviewItemView {
    pub label: Seq<char>,
    pub value: Seq<char>,
}

impl View for ReviewItem {
    type V = ReviewItemView;

    open spec fn view(&self) -> ReviewItemView {
        ReviewItemView { label: self.label@, value: self.value@ }
    }
}

pub open spec fn review_spec(
    browsers: Seq<Seq<char>>,
    terminals: Seq<Seq<char>>,
    editors: Seq<Seq<char>>,
    install_nvm: bool,
    agents: Seq<Seq<char>>,
) -> Seq<ReviewItemView> {
    seq![
        ReviewItemView { label: "Web browsers"@, value: labels_text_spec(browsers) },
        ReviewItemView { label: "Terminals"@, value: labels_text_spec(terminals) },
        ReviewItemView { label: "Editors"@, value: labels_text_spec(editors) },
        ReviewItemView { label: "Install nvm"@, value: if install_nvm { "Yes"@ } else { "No"@ } },
        ReviewItemView { label: "Coding agents"@, value: labels_text_spec(agents) },
    ]
}

/// The lines of the review screen, given the labels of each choice.
pub fn review_items(
    browsers: &Vec<String>,
    terminals: &Vec<String>,
    editors: &Vec<String>,
    install_nvm: bool,
    agents: &Vec<String>,
) -> (r: Vec<ReviewItem>)
    ensures
        r@.map_values(|i: ReviewItem| i@) == review_spec(
            browsers.deep_view(),
            terminals.deep_view(),
            editors.deep_view(),
            install_nvm,
            agents.deep_view(),
        ),
{
    let r = vec![
        ReviewItem { label: "Web browsers".to_string(), value: format_labels(browsers) },
        ReviewItem { label: "Terminals".to_string(), value: format_labels(terminals) },
        ReviewItem { label: "Editors".to_string(), value: format_labels(editors) },
        ReviewItem {
            label: "Install nvm".to_string(),
            value: if install_nvm { "Yes".to_string() } else { "No".to_string() },
        },
        ReviewItem { label: "Coding agents".to_string(), value: format_labels(agents) },
    ];
    assert(r@.map_values(|i: ReviewItem| i@) =~= review_spec(
        browsers.deep_view(),
        terminals.deep_view(),
        editors.deep_view(),
        install_nvm,
        agents.deep_view(),
    ));
    r
}

/// The name of a step that installs chosen items: `Installing` and their labels.
pub open spec fn installing_name(labels: Seq<Seq<char>>) -> Seq<char> {
    "Installing "@ + seq_join(labels, ", "@)
}

/// The step names, where a step that installs chosen items names them.
pub open spec fn install_step_names_spec(
    browsers: Seq<Seq<char>>,
    terminals: Seq<Seq<char>>,
    editors: Seq<Seq<char>>,
) -> Seq<Seq<char>> {
    let n0 = spec_step_names();
    let n1 = if browsers.len() > 0 { n0.update(STEP_BROWSERS as int, installing_name(browsers)) } else { n0 };
    let n2 = if terminals.len() > 0 { n1.update(STEP_TERMINALS as int, installing_name(terminals)) } else { n1 };
    if editors.len() > 0 { n2.update(STEP_EDITORS as int, installing_name(editors)) } else { n2 }
}

/// The names of the steps, naming the chosen browsers, terminals and editors.
pub fn install_step_names(browsers: &Vec<String>, terminals: &Vec<String>, editors: &Vec<String>) -> (r: Vec<String>)
    ensures
        r.deep_view() == install_step_names_spec(browsers.deep_view(), terminals.deep_view(), editors.deep_view()),
        r.len() == STEP_COUNT,
{
    let mut names = step_names();
    let ghost n0 = names.deep_view();
    if browsers.len() > 0 {
        let name = concat("Installing ", join(browsers, ", ").as_str());
        names.set(STEP_BROWSERS, name);
    }
    let ghost n1 = if browsers.len() > 0 { n0.update(STEP_BROWSERS as int, installing_name(browsers.deep_view())) } else { n0 };
    assert(names.deep_view() =~= n1);
    if terminals.len() > 0 {
        let name = concat("Installing ", join(terminals, ", ").as_str());
        names.set(STEP_TERMINALS, name);
    }
    let ghost n2 = if terminals.len() > 0 { n1.update(STEP_TERMINALS as int, installing_name(terminals.deep_view())) } else { n1 };
    assert(names.deep_view() =~= n2);
    if editors.len() > 0 {
        let name = concat("Installing ", join(editors, ", ").as_str());
        names.set(STEP_EDITORS, name);
    }
    assert(names.deep_view() =~= install_step_names_spec(browsers.deep_view(), terminals.deep_view(), editors.deep_view()));
    names
}

/// The first log lines: the greeting, whether sudo works, and the GPU summary.
pub fn initial_logs(sudo_verified: bool, gpu_summary: Option<String>) -> (r: VecDeque<String>)
    ensures
        r@.map_values(|s: String| s@) == seq!["Starting Palawan installer..."@] + (if sudo_verified {
            seq!["Sudo verified."@]
        } else {
            Seq::empty()
        }) + match gpu_summary {
            Some(s) => seq![s@],
            None => Seq::<Seq<char>>::empty(),
        },
{
    let mut logs: VecDeque<String> = VecDeque::new();
    logs.push_back("Starting Palawan installer...".to_string());
    if sudo_verified {
        logs.push_back("Sudo verified.".to_string());
    }
    match gpu_summary {
        Some(s) => logs.push_back(s),
        None => {},
    }
    assert(logs@.map_values(|s: String| s@) =~= seq!["Starting Palawan installer..."@] + (if sudo_verified {
        seq!["Sudo verified."@]
    } else {
        Seq::empty()
    }) + match gpu_summary {
        Some(s) => seq![s@],
        None => Seq::<Seq<char>>::empty(),
    });
    logs
}

} // verus!
