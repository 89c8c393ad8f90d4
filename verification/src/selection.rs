use vstd::prelude::*;
use crate::lists::{extend_unique, extend_unique_spec, lemma_extend_unique_contains};
use crate::text::{name_list, strings_contain};

verus! {

/// Packages chosen for installation: repository packages go through pacman,
/// AUR packages through yay.
#[derive(Clone, Debug)]
pub struct PackageSelection {
    pub pacman: Vec<String>,
    pub yay: Vec<String>,
}

/// The package names of a [`PackageSelection`].
pub struct SelectionView {
    pub pacman: Seq<Seq<char>>,
    pub yay: Seq<Seq<char>>,
}

impl View for PackageSelection {
    type V = SelectionView;

    open spec fn view(&self) -> SelectionView {
        SelectionView { pacman: self.pacman.deep_view(), yay: self.yay.deep_view() }
    }
}

pub open spec fn empty_selection() -> SelectionView {
    SelectionView { pacman: Seq::empty(), yay: Seq::empty() }
}

impl PackageSelection {
    /// A selection with no packages.
    pub fn new() -> (r: Self)
        ensures
            r@ == empty_selection(),
    {
        let r = PackageSelection { pacman: Vec::new(), yay: Vec::new() };
        assert(r@.pacman =~= Seq::<Seq<char>>::empty());
        assert(r@.yay =~= Seq::<Seq<char>>::empty());
        r
    }

    /// Whether nothing at all is selected.
    pub fn is_empty(&self) -> (r: bool)
        ensures
            r == (self@.pacman.len() == 0 && self@.yay.len() == 0),
    {
        self.pacman.len() == 0 && self.yay.len() == 0
    }
}

impl Default for PackageSelection {
    fn default() -> (r: Self)
        ensures
            r@ == empty_selection(),
    {
        PackageSelection::new()
    }
}

/// npm packages chosen for installation.
#[derive(Clone, Debug)]
pub struct NpmSelection {
    pub packages: Vec<String>,
}

impl View for NpmSelection {
    type V = Seq<Seq<char>>;

    open spec fn view(&self) -> Seq<Seq<char>> {
        self.packages.deep_view()
    }
}

impl NpmSelection {
    /// A selection with no packages.
    pub fn new() -> (r: Self)
        ensures
            r@ == Seq::<Seq<char>>::empty(),
    {
        let r = NpmSelection { packages: Vec::new() };
        assert(r@ =~= Seq::<Seq<char>>::empty());
        r
    }

    /// Whether no package is selected.
    pub fn is_empty(&self) -> (r: bool)
        ensures
            r == (self@.len() == 0),
    {
        self.packages.len() == 0
    }
}

impl Default for NpmSelection {
    fn default() -> (r: Self)
        ensures
            r@ == Seq::<Seq<char>>::empty(),
    {
        NpmSelection::new()
    }
}

/// One entry of a chooser: a label and the packages that it installs.
#[derive(Clone, Debug)]
pub struct InstallChoice {
    pub label: String,
    pub pacman: Vec<String>,
    pub yay: Vec<String>,
}

pub struct ChoiceView {
    pub label: Seq<char>,
    pub pacman: Seq<Seq<char>>,
    pub yay: Seq<Seq<char>>,
}

impl View for InstallChoice {
    type V = ChoiceView;

    open spec fn view(&self) -> ChoiceView {
        ChoiceView { label: self.label@, pacman: self.pacman.deep_view(), yay: self.yay.deep_view() }
    }
}

/// One entry of the npm chooser.
#[derive(Clone, Debug)]
pub struct NpmChoice {
    pub label: String,
    pub packages: Vec<String>,
}

pub struct NpmChoiceView {
    pub label: Seq<char>,
    pub packages: Seq<Seq<char>>,
}

impl View for NpmChoice {
    type V = NpmChoiceView;

    open spec fn view(&self) -> NpmChoiceView {
        NpmChoiceView { label: self.label@, packages: self.packages.deep_view() }
    }
}

pub open spec fn choice_views(cs: Seq<InstallChoice>) -> Seq<ChoiceView> {
    cs.map_values(|c: InstallChoice| c@)
}

pub open spec fn npm_choice_views(cs: Seq<NpmChoice>) -> Seq<NpmChoiceView> {
    cs.map_values(|c: NpmChoice| c@)
}

pub open spec fn min_len(a: int, b: int) -> int {
    if a <= b {
        a
    } else {
        b
    }
}

/// The selection built from the first `n` (flag, choice) pairs: each flagged
/// choice adds its packages, skipping names already present.
pub open spec fn selection_prefix(flags: Seq<bool>, choices: Seq<ChoiceView>, n: int) -> SelectionView
    decreases n,
{
    if n <= 0 {
        empty_selection()
    } else {
        let s = selection_prefix(flags, choices, n - 1);
        if flags[n - 1] {
            SelectionView {
                pacman: extend_unique_spec(s.pacman, choices[n - 1].pacman),
                yay: extend_unique_spec(s.yay, choices[n - 1].yay),
            }
        } else {
            s
        }
    }
}

/// Flags and choices are paired by position; pairs beyond the shorter one are ignored.
pub open spec fn selection_from_flags_spec(flags: Seq<bool>, choices: Seq<ChoiceView>) -> SelectionView {
    selection_prefix(flags, choices, min_len(flags.len() as int, choices.len() as int))
}

pub open spec fn npm_selection_prefix(flags: Seq<bool>, choices: Seq<NpmChoiceView>, n: int) -> Seq<Seq<char>>
    decreases n,
{
    if n <= 0 {
        Seq::empty()
    } else {
        let s = npm_selection_prefix(flags, choices, n - 1);
        if flags[n - 1] {
            extend_unique_spec(s, choices[n - 1].packages)
        } else {
            s
        }
    }
}

pub open spec fn npm_selection_from_flags_spec(flags: Seq<bool>, choices: Seq<NpmChoiceView>) -> Seq<Seq<char>> {
    npm_selection_prefix(flags, choices, min_len(flags.len() as int, choices.len() as int))
}

pub open spec fn all_in(names: Seq<Seq<char>>, pool: Seq<Seq<char>>) -> bool {
    forall|k: int| 0 <= k < names.len() ==> pool.contains(#[trigger] names[k])
}

/// A choice counts as selected when it installs something and every one of its
/// packages is in the selection.
pub open spec fn choice_selected_spec(sel: SelectionView, c: ChoiceView) -> bool {
    &&& all_in(c.pacman, sel.pacman)
    &&& all_in(c.yay, sel.yay)
    &&& (c.pacman.len() > 0 || c.yay.len() > 0)
}

/// An npm choice counts as selected when every one of its packages is selected.
pub open spec fn npm_choice_selected_spec(sel: Seq<Seq<char>>, c: NpmChoiceView) -> bool {
    all_in(c.packages, sel)
}

pub open spec fn flags_spec(sel: SelectionView, choices: Seq<ChoiceView>) -> Seq<bool> {
    Seq::new(choices.len(), |i: int| choice_selected_spec(sel, choices[i]))
}

pub open spec fn npm_flags_spec(sel: Seq<Seq<char>>, choices: Seq<NpmChoiceView>) -> Seq<bool> {
    Seq::new(choices.len(), |i: int| npm_choice_selected_spec(sel, choices[i]))
}

/// Labels of the flagged choices, in the choices' order.
pub open spec fn flagged_labels(flags: Seq<bool>, labels: Seq<Seq<char>>) -> Seq<Seq<char>>
    decreases labels.len(),
{
    if labels.len() == 0 {
        Seq::empty()
    } else {
        let prev = flagged_labels(flags, labels.drop_last());
        if flags[labels.len() - 1] {
            prev.push(labels.last())
        } else {
            prev
        }
    }
}

pub open spec fn choice_labels(choices: Seq<ChoiceView>) -> Seq<Seq<char>> {
    choices.map_values(|c: ChoiceView| c.label)
}

pub open spec fn npm_choice_labels(choices: Seq<NpmChoiceView>) -> Seq<Seq<char>> {
    choices.map_values(|c: NpmChoiceView| c.label)
}

/// Whether every name of `names` occurs in `pool`.
fn all_contained(names: &Vec<String>, pool: &Vec<String>) -> (r: bool)
    ensures
        r == all_in(names.deep_view(), pool.deep_view()),
{
    let mut i: usize = 0;
    while i < names.len()
        invariant
            i <= names.len(),
            forall|k: int| 0 <= k < i ==> pool.deep_view().contains(#[trigger] names.deep_view()[k]),
        decreases names.len() - i,
    {
        if !strings_contain(pool, names[i].as_str()) {
            assert(names.deep_view()[i as int] == names@[i as int]@);
            return false;
        }
        i += 1;
    }
    true
}

fn choice_selected(selection: &PackageSelection, choice: &InstallChoice) -> (r: bool)
    ensures
        r == choice_selected_spec(selection@, choice@),
{
    if !all_contained(&choice.pacman, &selection.pacman) {
        return false;
    }
    if !all_contained(&choice.yay, &selection.yay) {
        return false;
    }
    choice.pacman.len() > 0 || choice.yay.len() > 0
}

/// The selection for the given flags over the given choices.
pub fn selection_from_flags_for(flags: &[bool], choices: &[InstallChoice]) -> (r: PackageSelection)
    ensures
        r@ == selection_from_flags_spec(flags@, choice_views(choices@)),
{
    let mut selection = PackageSelection::new();
    let n = if flags.len() <= choices.len() {
        flags.len()
    } else {
        choices.len()
    };
    let ghost cv = choice_views(choices@);
    let mut i: usize = 0;
    while i < n
        invariant
            i <= n <= flags.len(),
            n <= choices.len(),
            n == min_len(flags@.len() as int, choices@.len() as int),
            cv == choice_views(choices@),
            selection@ == selection_prefix(flags@, cv, i as int),
        decreases n - i,
    {
        assert(cv[i as int] == choices@[i as int]@);
        if flags[i] {
            extend_unique(&mut selection.pacman, &choices[i].pacman);
            extend_unique(&mut selection.yay, &choices[i].yay);
        }
        i += 1;
    }
    selection
}

/// The npm selection for the given flags over the given choices.
pub fn selection_from_flags_for_npm(flags: &[bool], choices: &[NpmChoice]) -> (r: NpmSelection)
    ensures
        r@ == npm_selection_from_flags_spec(flags@, npm_choice_views(choices@)),
{
    let mut selection = NpmSelection::new();
    let n = if flags.len() <= choices.len() {
        flags.len()
    } else {
        choices.len()
    };
    let ghost cv = npm_choice_views(choices@);
    let mut i: usize = 0;
    while i < n
        invariant
            i <= n <= flags.len(),
            n <= choices.len(),
            n == min_len(flags@.len() as int, choices@.len() as int),
            cv == npm_choice_views(choices@),
            selection@ == npm_selection_prefix(flags@, cv, i as int),
        decreases n - i,
    {
        assert(cv[i as int] == choices@[i as int]@);
        if flags[i] {
            extend_unique(&mut selection.packages, &choices[i].packages);
        }
        i += 1;
    }
    selection
}

/// The labels of the choices that the selection covers, in the choices' order.
pub fn labels_for_selection(selection: &PackageSelection, choices: &[InstallChoice]) -> (r: Vec<String>)
    ensures
        r.deep_view() == flagged_labels(
            flags_spec(selection@, choice_views(choices@)),
            choice_labels(choice_views(choices@)),
        ),
{
    let ghost cv = choice_views(choices@);
    let ghost fl = flags_spec(selection@, cv);
    let ghost labels = choice_labels(cv);
    let mut out: Vec<String> = Vec::new();
    let mut i: usize = 0;
    while i < choices.len()
        invariant
            i <= choices.len(),
            cv == choice_views(choices@),
            fl == flags_spec(selection@, cv),
            labels == choice_labels(cv),
            out.deep_view() == flagged_labels(fl, labels.take(i as int)),
        decreases choices.len() - i,
    {
        let ghost before = out.deep_view();
        assert(labels.take(i + 1).drop_last() =~= labels.take(i as int));
        assert(cv[i as int] == choices@[i as int]@);
        if choice_selected(selection, &choices[i]) {
            out.push(choices[i].label.clone());
            assert(out.deep_view() =~= before.push(choices@[i as int]@.label));
        }
        i += 1;
    }
    assert(labels.take(choices.len() as int) =~= labels);
    out
}

/// The labels of the npm choices that the selection covers, in the choices' order.
pub fn labels_for_npm_selection(selection: &NpmSelection, choices: &[NpmChoice]) -> (r: Vec<String>)
    ensures
        r.deep_view() == flagged_labels(
            npm_flags_spec(selection@, npm_choice_views(choices@)),
            npm_choice_labels(npm_choice_views(choices@)),
        ),
{
    let ghost cv = npm_choice_views(choices@);
    let ghost fl = npm_flags_spec(selection@, cv);
    let ghost labels = npm_choice_labels(cv);
    let mut out: Vec<String> = Vec::new();
    let mut i: usize = 0;
    while i < choices.len()
        invariant
            i <= choices.len(),
            cv == npm_choice_views(choices@),
            fl == npm_flags_spec(selection@, cv),
            labels == npm_choice_labels(cv),
            out.deep_view() == flagged_labels(fl, labels.take(i as int)),
        decreases choices.len() - i,
    {
        let ghost before = out.deep_view();
        assert(labels.take(i + 1).drop_last() =~= labels.take(i as int));
        assert(cv[i as int] == choices@[i as int]@);
        if all_contained(&choices[i].packages, &selection.packages) {
            out.push(choices[i].label.clone());
            assert(out.deep_view() =~= before.push(choices@[i as int]@.label));
        }
        i += 1;
    }
    assert(labels.take(choices.len() as int) =~= labels);
    out
}

/// For each choice, whether the selection covers it.
pub fn flags_for_selection(selection: &PackageSelection, choices: &[InstallChoice]) -> (r: Vec<bool>)
    ensures
        r@ == flags_spec(selection@, choice_views(choices@)),
{
    let ghost cv = choice_views(choices@);
    let mut out: Vec<bool> = Vec::new();
    let mut i: usize = 0;
    while i < choices.len()
        invariant
            i <= choices.len(),
            cv == choice_views(choices@),
            out@ == flags_spec(selection@, cv).take(i as int),
        decreases choices.len() - i,
    {
        assert(cv[i as int] == choices@[i as int]@);
        let b = choice_selected(selection, &choices[i]);
        out.push(b);
        assert(out@ =~= flags_spec(selection@, cv).take(i + 1));
        i += 1;
    }
    assert(flags_spec(selection@, cv).take(choices.len() as int) =~= flags_spec(selection@, cv));
    out
}

/// For each npm choice, whether the selection covers it.
pub fn flags_for_npm_selection(selection: &NpmSelection, choices: &[NpmChoice]) -> (r: Vec<bool>)
    ensures
        r@ == npm_flags_spec(selection@, npm_choice_views(choices@)),
{
    let ghost cv = npm_choice_views(choices@);
    let mut out: Vec<bool> = Vec::new();
    let mut i: usize = 0;
    while i < choices.len()
        invariant
            i <= choices.len(),
            cv == npm_choice_views(choices@),
            out@ == npm_flags_spec(selection@, cv).take(i as int),
        decreases choices.len() - i,
    {
        assert(cv[i as int] == choices@[i as int]@);
        let b = all_contained(&choices[i].packages, &selection.packages);
        out.push(b);
        assert(out@ =~= npm_flags_spec(selection@, cv).take(i + 1));
        i += 1;
    }
    assert(npm_flags_spec(selection@, cv).take(choices.len() as int) =~= npm_flags_spec(
        selection@,
        cv,
    ));
    out
}

/// Every choice installs something, and no two choices share a package name
/// (among pacman packages, nor among AUR packages).
pub open spec fn choices_distinct(cs: Seq<ChoiceView>) -> bool {
    &&& forall|i: int| 0 <= i < cs.len() ==> (#[trigger] cs[i]).pacman.len() > 0 || cs[i].yay.len() > 0
    &&& forall|i: int, j: int, x: Seq<char>|
        0 <= i < cs.len() && 0 <= j < cs.len() && i != j && #[trigger] cs[i].pacman.contains(x)
            ==> !#[trigger] cs[j].pacman.contains(x)
    &&& forall|i: int, j: int, x: Seq<char>|
        0 <= i < cs.len() && 0 <= j < cs.len() && i != j && #[trigger] cs[i].yay.contains(x)
            ==> !#[trigger] cs[j].yay.contains(x)
}

/// Every npm choice installs something, and no two npm choices share a package.
pub open spec fn npm_choices_distinct(cs: Seq<NpmChoiceView>) -> bool {
    &&& forall|i: int| 0 <= i < cs.len() ==> (#[trigger] cs[i]).packages.len() > 0
    &&& forall|i: int, j: int, x: Seq<char>|
        0 <= i < cs.len() && 0 <= j < cs.len() && i != j && #[trigger] cs[i].packages.contains(x)
            ==> !#[trigger] cs[j].packages.contains(x)
}

/// A name is in the selection built from the first `n` pairs exactly when some
/// flagged choice among them lists it.
proof fn lemma_selection_prefix_contains(flags: Seq<bool>, cs: Seq<ChoiceView>, n: int, x: Seq<char>)
    requires
        0 <= n <= flags.len(),
        n <= cs.len(),
    ensures
        selection_prefix(flags, cs, n).pacman.contains(x) <==> exists|k: int|
            0 <= k < n && flags[k] && #[trigger] cs[k].pacman.contains(x),
        selection_prefix(flags, cs, n).yay.contains(x) <==> exists|k: int|
            0 <= k < n && flags[k] && #[trigger] cs[k].yay.contains(x),
    decreases n,
{
    if n > 0 {
        lemma_selection_prefix_contains(flags, cs, n - 1, x);
        let s = selection_prefix(flags, cs, n - 1);
        if flags[n - 1] {
            lemma_extend_unique_contains(s.pacman, cs[n - 1].pacman, x);
            lemma_extend_unique_contains(s.yay, cs[n - 1].yay, x);
        }
        if exists|k: int| 0 <= k < n && flags[k] && #[trigger] cs[k].pacman.contains(x) {
            let k = choose|k: int| 0 <= k < n && flags[k] && #[trigger] cs[k].pacman.contains(x);
            if k < n - 1 {
                assert(exists|k2: int| 0 <= k2 < n - 1 && flags[k2] && #[trigger] cs[k2].pacman.contains(x));
            }
        }
        if exists|k: int| 0 <= k < n && flags[k] && #[trigger] cs[k].yay.contains(x) {
            let k = choose|k: int| 0 <= k < n && flags[k] && #[trigger] cs[k].yay.contains(x);
            if k < n - 1 {
                assert(exists|k2: int| 0 <= k2 < n - 1 && flags[k2] && #[trigger] cs[k2].yay.contains(x));
            }
        }
    }
}

proof fn lemma_npm_selection_prefix_contains(
    flags: Seq<bool>,
    cs: Seq<NpmChoiceView>,
    n: int,
    x: Seq<char>,
)
    requires
        0 <= n <= flags.len(),
        n <= cs.len(),
    ensures
        npm_selection_prefix(flags, cs, n).contains(x) <==> exists|k: int|
            0 <= k < n && flags[k] && #[trigger] cs[k].packages.contains(x),
    decreases n,
{
    if n > 0 {
        lemma_npm_selection_prefix_contains(flags, cs, n - 1, x);
        let s = npm_selection_prefix(flags, cs, n - 1);
        if flags[n - 1] {
            lemma_extend_unique_contains(s, cs[n - 1].packages, x);
        }
        if exists|k: int| 0 <= k < n && flags[k] && #[trigger] cs[k].packages.contains(x) {
            let k = choose|k: int| 0 <= k < n && flags[k] && #[trigger] cs[k].packages.contains(x);
            if k < n - 1 {
                assert(exists|k2: int| 0 <= k2 < n - 1 && flags[k2] && #[trigger] cs[k2].packages.contains(x));
            }
        }
    }
}

/// Reading the flags back from the selection that they produced gives the same
/// flags, for choices that each install something and share no package.
pub proof fn law_flags_roundtrip(flags: Seq<bool>, choices: Seq<ChoiceView>)
    requires
        flags.len() == choices.len(),
        choices_distinct(choices),
    ensures
        flags_spec(selection_from_flags_spec(flags, choices), choices) == flags,
{
    let n = flags.len() as int;
    let sel = selection_from_flags_spec(flags, choices);
    assert forall|i: int| 0 <= i < n implies choice_selected_spec(sel, choices[i]) == flags[i] by {
        let c = choices[i];
        if flags[i] {
            assert forall|k: int| 0 <= k < c.pacman.len() implies sel.pacman.contains(#[trigger] c.pacman[k]) by {
                assert(c.pacman.contains(c.pacman[k]));
                lemma_selection_prefix_contains(flags, choices, n, c.pacman[k]);
            }
            assert forall|k: int| 0 <= k < c.yay.len() implies sel.yay.contains(#[trigger] c.yay[k]) by {
                assert(c.yay.contains(c.yay[k]));
                lemma_selection_prefix_contains(flags, choices, n, c.yay[k]);
            }
        } else {
            if c.pacman.len() > 0 {
                let x = c.pacman[0];
                assert(c.pacman.contains(x));
                lemma_selection_prefix_contains(flags, choices, n, x);
                if sel.pacman.contains(x) {
                    let k = choose|k: int| 0 <= k < n && flags[k] && #[trigger] choices[k].pacman.contains(x);
                    assert(k != i);
                    assert(false);
                }
            } else {
                let x = c.yay[0];
                assert(c.yay.contains(x));
                lemma_selection_prefix_contains(flags, choices, n, x);
                if sel.yay.contains(x) {
                    let k = choose|k: int| 0 <= k < n && flags[k] && #[trigger] choices[k].yay.contains(x);
                    assert(k != i);
                    assert(false);
                }
            }
        }
    }
    assert(flags_spec(sel, choices) =~= flags);
}

/// Reading the flags back from the npm selection that they produced gives the
/// same flags, for npm choices that each install something and share no package.
pub proof fn law_npm_flags_roundtrip(flags: Seq<bool>, choices: Seq<NpmChoiceView>)
    requires
        flags.len() == choices.len(),
        npm_choices_distinct(choices),
    ensures
        npm_flags_spec(npm_selection_from_flags_spec(flags, choices), choices) == flags,
{
    let n = flags.len() as int;
    let sel = npm_selection_from_flags_spec(flags, choices);
    assert forall|i: int| 0 <= i < n implies npm_choice_selected_spec(sel, choices[i]) == flags[i] by {
        let c = choices[i];
        if flags[i] {
            assert forall|k: int| 0 <= k < c.packages.len() implies sel.contains(#[trigger] c.packages[k]) by {
                assert(c.packages.contains(c.packages[k]));
                lemma_npm_selection_prefix_contains(flags, choices, n, c.packages[k]);
            }
        } else {
            let x = c.packages[0];
            assert(c.packages.contains(x));
            lemma_npm_selection_prefix_contains(flags, choices, n, x);
            if sel.contains(x) {
                let k = choose|k: int| 0 <= k < n && flags[k] && #[trigger] choices[k].packages.contains(x);
                assert(k != i);
                assert(false);
            }
        }
    }
    assert(npm_flags_spec(sel, choices) =~= flags);
}

/// The labels reported for the selection built from some flags are the labels of
/// the flagged choices, for choices that each install something and share no package.
pub proof fn law_labels_of_flags(flags: Seq<bool>, choices: Seq<ChoiceView>)
    requires
        flags.len() == choices.len(),
        choices_distinct(choices),
    ensures
        flagged_labels(
            flags_spec(selection_from_flags_spec(flags, choices), choices),
            choice_labels(choices),
        ) == flagged_labels(flags, choice_labels(choices)),
{
    law_flags_roundtrip(flags, choices);
}

/// The labels reported for the npm selection built from some flags are the labels
/// of the flagged npm choices, for npm choices that each install something and
/// share no package.
pub proof fn law_npm_labels_of_flags(flags: Seq<bool>, choices: Seq<NpmChoiceView>)
    requires
        flags.len() == choices.len(),
        npm_choices_distinct(choices),
    ensures
        flagged_labels(
            npm_flags_spec(npm_selection_from_flags_spec(flags, choices), choices),
            npm_choice_labels(choices),
        ) == flagged_labels(flags, npm_choice_labels(choices)),
{
    law_npm_flags_roundtrip(flags, choices);
}

/// The selection built from some flags is empty exactly when no flagged choice
/// installs anything.
pub proof fn law_selection_empty(flags: Seq<bool>, choices: Seq<ChoiceView>)
    ensures
        ({
            let sel = selection_from_flags_spec(flags, choices);
            sel.pacman.len() == 0 && sel.yay.len() == 0
        }) <==> (forall|k: int|
            0 <= k < min_len(flags.len() as int, choices.len() as int) && flags[k] ==> (
            #[trigger] choices[k]).pacman.len() == 0 && choices[k].yay.len() == 0),
{
    let n = min_len(flags.len() as int, choices.len() as int);
    let sel = selection_from_flags_spec(flags, choices);
    if sel.pacman.len() > 0 {
        let x = sel.pacman[0];
        assert(sel.pacman.contains(x));
        lemma_selection_prefix_contains(flags, choices, n, x);
        let k = choose|k: int| 0 <= k < n && flags[k] && #[trigger] choices[k].pacman.contains(x);
        assert(choices[k].pacman.len() > 0);
    }
    if sel.yay.len() > 0 {
        let x = sel.yay[0];
        assert(sel.yay.contains(x));
        lemma_selection_prefix_contains(flags, choices, n, x);
        let k = choose|k: int| 0 <= k < n && flags[k] && #[trigger] choices[k].yay.contains(x);
        assert(choices[k].yay.len() > 0);
    }
    if exists|k: int|
        0 <= k < n && flags[k] && !((#[trigger] choices[k]).pacman.len() == 0 && choices[k].yay.len()
            == 0) {
        let k = choose|k: int|
            0 <= k < n && flags[k] && !((#[trigger] choices[k]).pacman.len() == 0
                && choices[k].yay.len() == 0);
        if choices[k].pacman.len() > 0 {
            let x = choices[k].pacman[0];
            assert(choices[k].pacman.contains(x));
            lemma_selection_prefix_contains(flags, choices, n, x);
        } else {
            let x = choices[k].yay[0];
            assert(choices[k].yay.contains(x));
            lemma_selection_prefix_contains(flags, choices, n, x);
        }
    }
}

fn install_choice(label: &str, pacman: &[&str], yay: &[&str]) -> (r: InstallChoice)
    ensures
        r@ == (ChoiceView {
            label: label@,
            pacman: pacman@.map_values(|s: &str| s@),
            yay: yay@.map_values(|s: &str| s@),
        }),
{
    InstallChoice { label: label.to_string(), pacman: name_list(pacman), yay: name_list(yay) }
}

fn npm_choice(label: &str, packages: &[&str]) -> (r: NpmChoice)
    ensures
        r@ == (NpmChoiceView { label: label@, packages: packages@.map_values(|s: &str| s@) }),
{
    NpmChoice { label: label.to_string(), packages: name_list(packages) }
}

pub open spec fn spec_browser_choices() -> Seq<ChoiceView> {
    seq![
        ChoiceView { label: "Firefox"@, pacman: seq!["firefox"@, "firefox-ublock-origin"@], yay: seq![] },
        ChoiceView { label: "Chromium"@, pacman: seq!["chromium"@], yay: seq![] },
        ChoiceView { label: "Ungoogled Chromium"@, pacman: seq![], yay: seq!["ungoogled-chromium-bin"@] },
        ChoiceView { label: "Brave"@, pacman: seq![], yay: seq!["brave-bin"@] },
        ChoiceView { label: "Zen Browser"@, pacman: seq![], yay: seq!["zen-browser-bin"@] },
        ChoiceView { label: "LibreWolf"@, pacman: seq![], yay: seq!["librewolf-bin"@] },
    ]
}

/// A table whose choices each install something, and in which no name listed
/// by one choice equals a name of the same kind listed by another, satisfies
/// [`choices_distinct`].
pub proof fn lemma_choices_distinct_by_names(cs: Seq<ChoiceView>)
    requires
        forall|i: int| 0 <= i < cs.len() ==> (#[trigger] cs[i]).pacman.len() > 0 || cs[i].yay.len() > 0,
        forall|i: int, j: int, a: int, b: int|
            0 <= i < cs.len() && 0 <= j < cs.len() && i != j && 0 <= a < cs[i].pacman.len() && 0 <= b
                < cs[j].pacman.len() ==> #[trigger] cs[i].pacman[a] != #[trigger] cs[j].pacman[b],
        forall|i: int, j: int, a: int, b: int|
            0 <= i < cs.len() && 0 <= j < cs.len() && i != j && 0 <= a < cs[i].yay.len() && 0 <= b
                < cs[j].yay.len() ==> #[trigger] cs[i].yay[a] != #[trigger] cs[j].yay[b],
    ensures
        choices_distinct(cs),
{
    assert forall|i: int, j: int, x: Seq<char>|
        0 <= i < cs.len() && 0 <= j < cs.len() && i != j && #[trigger] cs[i].pacman.contains(x)
            implies !#[trigger] cs[j].pacman.contains(x) by {
        let a = choose|a: int| 0 <= a < cs[i].pacman.len() && cs[i].pacman[a] == x;
        if cs[j].pacman.contains(x) {
            let b = choose|b: int| 0 <= b < cs[j].pacman.len() && cs[j].pacman[b] == x;
            assert(cs[i].pacman[a] == cs[j].pacman[b]);
        }
    }
    assert forall|i: int, j: int, x: Seq<char>|
        0 <= i < cs.len() && 0 <= j < cs.len() && i != j && #[trigger] cs[i].yay.contains(x)
            implies !#[trigger] cs[j].yay.contains(x) by {
        let a = choose|a: int| 0 <= a < cs[i].yay.len() && cs[i].yay[a] == x;
        if cs[j].yay.contains(x) {
            let b = choose|b: int| 0 <= b < cs[j].yay.len() && cs[j].yay[b] == x;
            assert(cs[i].yay[a] == cs[j].yay[b]);
        }
    }
}

/// The browser table satisfies [`choices_distinct`].
pub proof fn lemma_browser_choices_distinct()
    ensures
        choices_distinct(spec_browser_choices()),
{
    reveal_strlit("firefox");
    reveal_strlit("firefox-ublock-origin");
    reveal_strlit("chromium");
    reveal_strlit("ungoogled-chromium-bin");
    reveal_strlit("brave-bin");
    reveal_strlit("zen-browser-bin");
    reveal_strlit("librewolf-bin");
    assert("firefox"@.len() == 7);
    assert("firefox-ublock-origin"@.len() == 21);
    assert("chromium"@.len() == 8);
    assert("ungoogled-chromium-bin"@.len() == 22);
    assert("brave-bin"@.len() == 9);
    assert("zen-browser-bin"@.len() == 15);
    assert("librewolf-bin"@.len() == 13);
    lemma_choices_distinct_by_names(spec_browser_choices());
}

/// The web browsers on offer.
pub fn browser_choices() -> (r: Vec<InstallChoice>)
    ensures
        choice_views(r@) == spec_browser_choices(),
{
    let c0 = install_choice("Firefox", &["firefox", "firefox-ublock-origin"], &[]);
    assert(c0@.pacman =~= seq!["firefox"@, "firefox-ublock-origin"@]);
    assert(c0@.yay =~= Seq::<Seq<char>>::empty());
    let c1 = install_choice("Chromium", &["chromium"], &[]);
    assert(c1@.pacman =~= seq!["chromium"@]);
    assert(c1@.yay =~= Seq::<Seq<char>>::empty());
    let c2 = install_choice("Ungoogled Chromium", &[], &["ungoogled-chromium-bin"]);
    assert(c2@.pacman =~= Seq::<Seq<char>>::empty());
    assert(c2@.yay =~= seq!["ungoogled-chromium-bin"@]);
    let c3 = install_choice("Brave", &[], &["brave-bin"]);
    assert(c3@.pacman =~= Seq::<Seq<char>>::empty());
    assert(c3@.yay =~= seq!["brave-bin"@]);
    let c4 = install_choice("Zen Browser", &[], &["zen-browser-bin"]);
    assert(c4@.pacman =~= Seq::<Seq<char>>::empty());
    assert(c4@.yay =~= seq!["zen-browser-bin"@]);
    let c5 = install_choice("LibreWolf", &[], &["librewolf-bin"]);
    assert(c5@.pacman =~= Seq::<Seq<char>>::empty());
    assert(c5@.yay =~= seq!["librewolf-bin"@]);
    let v = vec![c0, c1, c2, c3, c4, c5];
    assert(choice_views(v@) =~= spec_browser_choices());
    v
}

pub open spec fn spec_terminal_choices() -> Seq<ChoiceView> {
    seq![
        ChoiceView { label: "Ghostty"@, pacman: seq!["ghostty"@], yay: seq![] },
        ChoiceView { label: "Kitty"@, pacman: seq!["kitty"@], yay: seq![] },
        ChoiceView { label: "Alacritty"@, pacman: seq!["alacritty"@], yay: seq![] },
    ]
}

/// The terminal table satisfies [`choices_distinct`].
pub proof fn lemma_terminal_choices_distinct()
    ensures
        choices_distinct(spec_terminal_choices()),
{
    reveal_strlit("ghostty");
    reveal_strlit("kitty");
    reveal_strlit("alacritty");
    assert("ghostty"@.len() == 7);
    assert("kitty"@.len() == 5);
    assert("alacritty"@.len() == 9);
    lemma_choices_distinct_by_names(spec_terminal_choices());
}

/// The terminal emulators on offer.
pub fn terminal_choices() -> (r: Vec<InstallChoice>)
    ensures
        choice_views(r@) == spec_terminal_choices(),
{
    let c0 = install_choice("Ghostty", &["ghostty"], &[]);
    assert(c0@.pacman =~= seq!["ghostty"@]);
    assert(c0@.yay =~= Seq::<Seq<char>>::empty());
    let c1 = install_choice("Kitty", &["kitty"], &[]);
    assert(c1@.pacman =~= seq!["kitty"@]);
    assert(c1@.yay =~= Seq::<Seq<char>>::empty());
    let c2 = install_choice("Alacritty", &["alacritty"], &[]);
    assert(c2@.pacman =~= seq!["alacritty"@]);
    assert(c2@.yay =~= Seq::<Seq<char>>::empty());
    let v = vec![c0, c1, c2];
    assert(choice_views(v@) =~= spec_terminal_choices());
    v
}

pub open spec fn spec_editor_choices() -> Seq<ChoiceView> {
    seq![
        ChoiceView { label: "Zed"@, pacman: seq!["zed"@], yay: seq![] },
        ChoiceView { label: "Cursor"@, pacman: seq![], yay: seq!["cursor-bin"@] },
        ChoiceView { label: "Visual Studio Code"@, pacman: seq![], yay: seq!["visual-studio-code-bin"@] },
        ChoiceView { label: "VSCodium"@, pacman: seq![], yay: seq!["vscodium-bin"@] },
        ChoiceView { label: "Sublime Text 4"@, pacman: seq![], yay: seq!["sublime-text-4"@] },
    ]
}

/// The editor table satisfies [`choices_distinct`].
pub proof fn lemma_editor_choices_distinct()
    ensures
        choices_distinct(spec_editor_choices()),
{
    reveal_strlit("zed");
    reveal_strlit("cursor-bin");
    reveal_strlit("visual-studio-code-bin");
    reveal_strlit("vscodium-bin");
    reveal_strlit("sublime-text-4");
    assert("zed"@.len() == 3);
    assert("cursor-bin"@.len() == 10);
    assert("visual-studio-code-bin"@.len() == 22);
    assert("vscodium-bin"@.len() == 12);
    assert("sublime-text-4"@.len() == 14);
    lemma_choices_distinct_by_names(spec_editor_choices());
}

/// The editors on offer.
pub fn editor_choices() -> (r: Vec<InstallChoice>)
    ensures
        choice_views(r@) == spec_editor_choices(),
{
    let c0 = install_choice("Zed", &["zed"], &[]);
    assert(c0@.pacman =~= seq!["zed"@]);
    assert(c0@.yay =~= Seq::<Seq<char>>::empty());
    let c1 = install_choice("Cursor", &[], &["cursor-bin"]);
    assert(c1@.pacman =~= Seq::<Seq<char>>::empty());
    assert(c1@.yay =~= seq!["cursor-bin"@]);
    let c2 = install_choice("Visual Studio Code", &[], &["visual-studio-code-bin"]);
    assert(c2@.pacman =~= Seq::<Seq<char>>::empty());
    assert(c2@.yay =~= seq!["visual-studio-code-bin"@]);
    let c3 = install_choice("VSCodium", &[], &["vscodium-bin"]);
    assert(c3@.pacman =~= Seq::<Seq<char>>::empty());
    assert(c3@.yay =~= seq!["vscodium-bin"@]);
    let c4 = install_choice("Sublime Text 4", &[], &["sublime-text-4"]);
    assert(c4@.pacman =~= Seq::<Seq<char>>::empty());
    assert(c4@.yay =~= seq!["sublime-text-4"@]);
    let v = vec![c0, c1, c2, c3, c4];
    assert(choice_views(v@) =~= spec_editor_choices());
    v
}

pub open spec fn spec_coding_agent_choices() -> Seq<NpmChoiceView> {
    seq![
        NpmChoiceView { label: "Codex"@, packages: seq!["@openai/codex"@] },
        NpmChoiceView { label: "Gemini"@, packages: seq!["@google/gemini-cli"@] },
    ]
}

/// An npm table whose choices each install something, and in which no
/// package listed by one choice equals a package listed by another, satisfies
/// [`npm_choices_distinct`].
pub proof fn lemma_npm_choices_distinct_by_names(cs: Seq<NpmChoiceView>)
    requires
        forall|i: int| 0 <= i < cs.len() ==> (#[trigger] cs[i]).packages.len() > 0,
        forall|i: int, j: int, a: int, b: int|
            0 <= i < cs.len() && 0 <= j < cs.len() && i != j && 0 <= a < cs[i].packages.len() && 0
                <= b < cs[j].packages.len() ==> #[trigger] cs[i].packages[a]
                != #[trigger] cs[j].packages[b],
    ensures
        npm_choices_distinct(cs),
{
    assert forall|i: int, j: int, x: Seq<char>|
        0 <= i < cs.len() && 0 <= j < cs.len() && i != j && #[trigger] cs[i].packages.contains(x)
            implies !#[trigger] cs[j].packages.contains(x) by {
        let a = choose|a: int| 0 <= a < cs[i].packages.len() && cs[i].packages[a] == x;
        if cs[j].packages.contains(x) {
            let b = choose|b: int| 0 <= b < cs[j].packages.len() && cs[j].packages[b] == x;
            assert(cs[i].packages[a] == cs[j].packages[b]);
        }
    }
}

/// The coding-agent table satisfies [`npm_choices_distinct`].
pub proof fn lemma_coding_agent_choices_distinct()
    ensures
        npm_choices_distinct(spec_coding_agent_choices()),
{
    reveal_strlit("@openai/codex");
    reveal_strlit("@google/gemini-cli");
    assert("@openai/codex"@.len() == 13);
    assert("@google/gemini-cli"@.len() == 18);
    lemma_npm_choices_distinct_by_names(spec_coding_agent_choices());
}

/// The coding agents on offer, installed through npm.
pub fn coding_agent_choices() -> (r: Vec<NpmChoice>)
    ensures
        npm_choice_views(r@) == spec_coding_agent_choices(),
{
    let c0 = npm_choice("Codex", &["@openai/codex"]);
    assert(c0@.packages =~= seq!["@openai/codex"@]);
    let c1 = npm_choice("Gemini", &["@google/gemini-cli"]);
    assert(c1@.packages =~= seq!["@google/gemini-cli"@]);
    let v = vec![c0, c1];
    assert(npm_choice_views(v@) =~= spec_coding_agent_choices());
    v
}

/// The browser selection for the given flags.
pub fn selection_from_flags(flags: &[bool]) -> (r: PackageSelection)
    ensures
        r@ == selection_from_flags_spec(flags@, spec_browser_choices()),
{
    let choices = browser_choices();
    selection_from_flags_for(flags, choices.as_slice())
}

} // verus!
