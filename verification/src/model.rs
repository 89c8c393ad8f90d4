use std::collections::VecDeque;
use vstd::prelude::*;

verus! {

/// State of one installer step.
#[derive(Clone, Copy, PartialEq, Eq, Structural, Debug)]
pub enum StepStatus {
    Pending,
    Running,
    Done,
    Skipped,
    Failed,
}

/// One line of the step list.
#[derive(Clone, Debug, PartialEq, Eq)]
pub struct Step {
    pub name: String,
    pub status: StepStatus,
    pub err: Option<String>,
}

/// The number of installer steps.
pub const STEP_COUNT: usize = 8;

/// The number of log lines kept.
pub const LOG_CAPACITY: usize = 200;

/// The number of spinner frames.
pub const SPINNER_LEN: usize = 4;

/// Overall progress: `steps_done` whole steps plus `done` out of `out_of`
/// parts of the next step, over [`STEP_COUNT`] steps.
#[derive(Clone, Copy, PartialEq, Eq, Structural, Debug)]
pub struct Progress {
    pub steps_done: usize,
    pub done: usize,
    pub out_of: usize,
}

/// The numerator of the progress fraction; its denominator is [`progress_den`].
pub open spec fn progress_num(p: Progress) -> int {
    p.steps_done * p.out_of + p.done
}

pub open spec fn progress_den(p: Progress) -> int {
    STEP_COUNT * p.out_of
}

/// A progress value that lies between 0 and 1.
pub open spec fn progress_valid(p: Progress) -> bool {
    &&& p.out_of > 0
    &&& p.done <= p.out_of
    &&& p.steps_done < STEP_COUNT || (p.steps_done == STEP_COUNT && p.done == 0)
}

/// `a` is no further along than `b`.
pub open spec fn progress_le(a: Progress, b: Progress) -> bool {
    progress_num(a) * progress_den(b) <= progress_num(b) * progress_den(a)
}

impl Progress {
    /// The progress after `k` whole steps.
    pub fn steps(k: usize) -> (r: Progress)
        requires
            k <= STEP_COUNT,
        ensures
            r == (Progress { steps_done: k, done: 0, out_of: 1 }),
            progress_valid(r),
    {
        Progress { steps_done: k, done: 0, out_of: 1 }
    }
}

/// Something the installer reports to the screen.
#[derive(Clone, Debug, PartialEq, Eq)]
pub enum InstallerEvent {
    Log(String),
    Progress(Progress),
    Step { index: usize, status: StepStatus, err: Option<String> },
    Done(Option<String>),
    NeedSudo,
}

/// An [`InstallerEvent`] with its strings taken as character sequences.
pub enum EventView {
    Log(Seq<char>),
    Progress(Progress),
    Step { index: usize, status: StepStatus, err: Option<Seq<char>> },
    Done(Option<Seq<char>>),
    NeedSudo,
}

pub open spec fn opt_string_view(o: Option<String>) -> Option<Seq<char>> {
    match o {
        Some(s) => Some(s@),
        None => None,
    }
}

impl View for InstallerEvent {
    type V = EventView;

    open spec fn view(&self) -> EventView {
        match self {
            InstallerEvent::Log(l) => EventView::Log(l@),
            InstallerEvent::Progress(p) => EventView::Progress(*p),
            InstallerEvent::Step { index, status, err } => EventView::Step {
                index: *index,
                status: *status,
                err: opt_string_view(*err),
            },
            InstallerEvent::Done(e) => EventView::Done(opt_string_view(*e)),
            InstallerEvent::NeedSudo => EventView::NeedSudo,
        }
    }
}

pub open spec fn event_views(events: Seq<InstallerEvent>) -> Seq<EventView> {
    events.map_values(|e: InstallerEvent| e@)
}

/// The state that the installer screen shows.
pub struct App {
    pub steps: Vec<Step>,
    pub progress: Progress,
    pub logs: VecDeque<String>,
    pub spinner_idx: usize,
    pub done: bool,
    pub err: Option<String>,
}

/// The log after appending `line`, dropping the oldest line when the log is full.
pub open spec fn push_log_spec(logs: Seq<String>, line: String) -> Seq<String> {
    if logs.len() >= LOG_CAPACITY {
        logs.subrange(1, logs.len() as int).push(line)
    } else {
        logs.push(line)
    }
}

/// Appends a line to the log, dropping the oldest line when the log is full.
pub fn push_log(logs: &mut VecDeque<String>, line: String)
    ensures
        final(logs)@ == push_log_spec(old(logs)@, line),
        old(logs)@.len() <= LOG_CAPACITY ==> final(logs)@.len() <= LOG_CAPACITY,
{
    if logs.len() >= LOG_CAPACITY {
        logs.pop_front();
    }
    logs.push_back(line);
}

/// The step list for the given names: every step pending, without error.
pub open spec fn initial_steps(names: Seq<String>) -> Seq<Step> {
    Seq::new(names.len(), |i: int| Step { name: names[i], status: StepStatus::Pending, err: None })
}

/// What a step becomes when the installer reports its status.
pub open spec fn step_with(s: Step, status: StepStatus, err: Option<String>) -> Step {
    Step { name: s.name, status, err }
}

impl App {
    /// The screen state before anything has happened.
    pub fn new(step_names: &Vec<String>, logs: VecDeque<String>) -> (r: App)
        ensures
            r.steps@ == initial_steps(step_names@),
            r.progress == (Progress { steps_done: 0, done: 0, out_of: 1 }),
            r.logs@ == logs@,
            r.spinner_idx == 0,
            !r.done,
            r.err is None,
    {
        let mut steps: Vec<Step> = Vec::new();
        let mut i: usize = 0;
        while i < step_names.len()
            invariant
                i <= step_names.len(),
                steps@ == initial_steps(step_names@).take(i as int),
            decreases step_names.len() - i,
        {
            steps.push(Step { name: step_names[i].clone(), status: StepStatus::Pending, err: None });
            i += 1;
            assert(steps@ =~= initial_steps(step_names@).take(i as int));
        }
        assert(initial_steps(step_names@).take(step_names.len() as int) =~= initial_steps(step_names@));
        App {
            steps,
            progress: Progress::steps(0),
            logs,
            spinner_idx: 0,
            done: false,
            err: None,
        }
    }

    /// Moves the spinner to its next frame.
    pub fn advance_spinner(&mut self)
        ensures
            final(self).spinner_idx == (old(self).spinner_idx + 1) % (SPINNER_LEN as int),
            final(self).steps == old(self).steps,
            final(self).logs == old(self).logs,
            final(self).progress == old(self).progress,
            final(self).done == old(self).done,
            final(self).err == old(self).err,
    {
        self.spinner_idx = (self.spinner_idx % SPINNER_LEN + 1) % SPINNER_LEN;
    }
}

/// Applies an installer event to the screen state. Asking for the sudo
/// password is handled by the caller and changes nothing here.
pub fn handle_event(app: &mut App, evt: InstallerEvent)
    ensures
        match evt {
            InstallerEvent::Log(line) => {
                &&& final(app).logs@ == push_log_spec(old(app).logs@, line)
                &&& final(app).steps == old(app).steps
                &&& final(app).progress == old(app).progress
                &&& final(app).done == old(app).done
                &&& final(app).err == old(app).err
            },
            InstallerEvent::Progress(value) => {
                &&& final(app).progress == value
                &&& final(app).logs == old(app).logs
                &&& final(app).steps == old(app).steps
                &&& final(app).done == old(app).done
                &&& final(app).err == old(app).err
            },
            InstallerEvent::Step { index, status, err } => {
                &&& final(app).steps@ == if index < old(app).steps@.len() {
                    old(app).steps@.update(index as int, step_with(old(app).steps@[index as int], status, err))
                } else {
                    old(app).steps@
                }
                &&& final(app).progress == old(app).progress
                &&& final(app).logs == old(app).logs
                &&& final(app).done == old(app).done
                &&& final(app).err == old(app).err
            },
            InstallerEvent::Done(err) => {
                &&& final(app).done
                &&& final(app).err == err
                &&& final(app).steps == old(app).steps
                &&& final(app).progress == old(app).progress
                &&& final(app).logs == old(app).logs
            },
            InstallerEvent::NeedSudo => {
                &&& final(app).steps == old(app).steps
                &&& final(app).progress == old(app).progress
                &&& final(app).logs == old(app).logs
                &&& final(app).done == old(app).done
                &&& final(app).err == old(app).err
            },
        },
        final(app).spinner_idx == old(app).spinner_idx,
{
    match evt {
        InstallerEvent::Log(line) => push_log(&mut app.logs, line),
        InstallerEvent::Progress(value) => app.progress = value,
        InstallerEvent::Step { index, status, err } => {
            if index < app.steps.len() {
                let name = app.steps[index].name.clone();
                app.steps.set(index, Step { name, status, err });
            }
        },
        InstallerEvent::Done(err) => {
            app.done = true;
            app.err = err;
        },
        InstallerEvent::NeedSudo => {},
    }
}

} // verus!
