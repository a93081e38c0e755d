//! The command interpreter: which monitors each argument selects, what is
//! done to them, and in which order the hardware is asked.
//!
//! A run is a dialogue. [`Cli::start`] and [`Cli::resume`] hand back a
//! [`Request`] for the hardware; the caller carries it out and answers with
//! the matching [`Reply`], until the request is [`Request::Finished`].
use vstd::prelude::*;
use vstd::string::*;
use crate::command::{
    Command, codes_of_texts, command_fits, lemma_split_on_len, parse_error, split_on, text_target,
};
use crate::decimal::{decimal, decimal_string, parse_unsigned, parse_unsigned_at_most};
use crate::error::Error;
use crate::input_source::InputSourceRaw;
use crate::monitor::{Monitor, description};
use crate::text::contains_text;

verus! {

/// What the library asks of the hardware, or the end of the run.
pub enum Request {
    /// Fetch the capabilities of the monitor; a failure is worth a warning
    /// and nothing more. Any reply will do.
    UpdateCapabilities { device: usize },
    /// Read the current input source of the monitor; reply with
    /// [`Reply::InputSource`].
    ReadInputSource { device: usize },
    /// Write the input source of the monitor; reply with [`Reply::Written`].
    SetInputSource { device: usize, value: InputSourceRaw },
    /// Dry run: report the write that would be made, and make none. Any
    /// reply will do.
    DryRunInputSource { device: usize, value: InputSourceRaw },
    /// Read what describes the monitor; reply with [`Reply::Description`].
    Describe { device: usize },
    /// Print the line. Any reply will do.
    Print(String),
    /// Give the monitor the settle time that its last write needs. Any reply
    /// will do.
    Sleep { device: usize },
    /// The run is over, with its outcome.
    Finished(Result<(), Error>),
}

/// What the hardware answered.
pub enum Reply {
    /// The request was carried out, or its outcome does not matter.
    Done,
    /// The current input source, or the text of the read's failure.
    InputSource(Result<InputSourceRaw, String>),
    /// The outcome of a write, with the text of its failure.
    Written(Result<(), String>),
    /// The current input source (or the text of the read's failure), the
    /// input sources that the monitor advertises, and its model name.
    Description {
        current: Result<InputSourceRaw, String>,
        sources: Option<Vec<InputSourceRaw>>,
        model: Option<String>,
    },
}

/// The reply that a run waits for.
#[derive(Clone, Copy, PartialEq, Eq, Structural)]
pub enum Waiting {
    /// The run has not started.
    Idle,
    /// For [`Request::UpdateCapabilities`].
    Capabilities,
    /// For the [`Request::ReadInputSource`] that fixes a toggle position.
    ToggleRead,
    /// For [`Request::SetInputSource`].
    Write,
    /// For [`Request::DryRunInputSource`].
    DryRun,
    /// For [`Request::Describe`].
    Describe,
    /// For [`Request::Print`].
    Print,
    /// For [`Request::Sleep`].
    Sleep,
    /// The run is over.
    Over,
}

/// Where a run stands.
///
/// `commands` are the arguments being run (one empty lookup when there were
/// none), `arg` the position of the one under way and `command` what it
/// asks for. `by_index` tells whether it selects one monitor by its index;
/// else `visit` walks the monitors in order and `matched` tells whether one
/// of them was selected so far. `set_index` is the toggle position that the
/// first selected monitor fixed for this argument. While the monitors
/// settle at the end, `visit` walks them again.
pub struct Progress {
    pub commands: Vec<String>,
    pub arg: usize,
    pub command: Option<Command>,
    pub by_index: bool,
    pub visit: usize,
    pub matched: bool,
    pub set_index: Option<usize>,
    pub waiting: Waiting,
}

/// The command-line tool: the monitors, the options, the arguments, and
/// the progress of a run over them.
pub struct Cli {
    /// The monitors to work on, in the order of their indices.
    pub monitors: Vec<Monitor>,
    /// Keep only the monitors whose backend name holds this text.
    pub backend: Option<String>,
    /// Fetch each monitor's capabilities before matching it by name.
    pub needs_capabilities: bool,
    /// Report writes instead of making them.
    pub dry_run: bool,
    /// How much to log.
    pub verbose: u8,
    /// `name` to describe the monitors that `name` selects, `name=input` to
    /// set their input source, `name=input1,input2,...` to toggle it.
    pub args: Vec<String>,
    pub progress: Progress,
}

/// The first position of `x` in `list`.
pub open spec fn position_of(list: Seq<InputSourceRaw>, x: InputSourceRaw) -> Option<nat>
    decreases list.len(),
{
    if list.len() == 0 {
        None
    } else {
        match position_of(list.drop_last(), x) {
            Some(i) => Some(i),
            None => if list.last() == x {
                Some((list.len() - 1) as nat)
            } else {
                None
            },
        }
    }
}

/// The toggle position after `current`: one past its first position in
/// `list`, or 0 when it is not there.
pub open spec fn toggle_index(current: InputSourceRaw, list: Seq<InputSourceRaw>) -> nat {
    match position_of(list, current) {
        Some(i) => i + 1,
        None => 0,
    }
}

/// The code at toggle position `index`; the last one when `index` is past
/// the end.
pub open spec fn toggle_pick(list: Seq<InputSourceRaw>, index: nat) -> InputSourceRaw {
    if index < list.len() {
        list[index as int]
    } else {
        list.last()
    }
}

/// `name` selects the monitor: it is empty, or the identifier holds it.
pub open spec fn selects(m: Monitor, name: Seq<char>) -> bool {
    name.len() == 0 || contains_text(m.id@, name)
}

/// The monitors whose backend name holds `backend`, in their order.
pub open spec fn with_backend(ms: Seq<Monitor>, backend: Seq<char>) -> Seq<Monitor>
    decreases ms.len(),
{
    if ms.len() == 0 {
        ms
    } else {
        let rest = with_backend(ms.drop_first(), backend);
        if contains_text(ms[0].backend@, backend) {
            seq![ms[0]] + rest
        } else {
            rest
        }
    }
}

/// The text that selects the monitors of a command.
pub open spec fn target(c: Command) -> Seq<char> {
    match c {
        Command::Lookup(s) => s@,
        Command::Assign(s, _) => s@,
        Command::Toggle(s, _) => s@,
    }
}

/// The two lists hold the same monitors in the same order; only their
/// flags may differ.
pub open spec fn same_monitors(a: Seq<Monitor>, b: Seq<Monitor>) -> bool {
    &&& a.len() == b.len()
    &&& forall|j: int|
        0 <= j < a.len() ==> (#[trigger] a[j]).device == b[j].device && a[j].id == b[j].id
            && a[j].backend == b[j].backend
}

fn position(current: InputSourceRaw, list: &[InputSourceRaw]) -> (r: Option<usize>)
    ensures
        match r {
            Some(i) => position_of(list@, current) == Some(i as nat) && i < list@.len() <= usize::MAX,
            None => position_of(list@, current) is None,
        },
{
    let mut i: usize = 0;
    assert(list@.take(0) =~= Seq::<InputSourceRaw>::empty());
    while i < list.len()
        invariant
            i <= list@.len(),
            position_of(list@.take(i as int), current) is None,
        decreases list@.len() - i,
    {
        assert(list@.take(i + 1).drop_last() =~= list@.take(i as int));
        if list[i] == current {
            proof {
                lemma_position_of_prefix(list@, current, i + 1);
            }
            return Some(i);
        }
        i = i + 1;
    }
    assert(list@.take(list@.len() as int) =~= list@);
    None
}

proof fn lemma_position_of_prefix(list: Seq<InputSourceRaw>, x: InputSourceRaw, k: int)
    requires
        0 <= k <= list.len(),
        position_of(list.take(k), x) is Some,
    ensures
        position_of(list, x) == position_of(list.take(k), x),
    decreases list.len() - k,
{
    if k < list.len() {
        assert(list.take(k + 1).drop_last() =~= list.take(k));
        lemma_position_of_prefix(list, x, k + 1);
    } else {
        assert(list.take(k) =~= list);
    }
}

proof fn lemma_position_of_bound(list: Seq<InputSourceRaw>, x: InputSourceRaw)
    ensures
        position_of(list, x) matches Some(i) ==> i < list.len(),
    decreases list.len(),
{
    if list.len() > 0 {
        lemma_position_of_bound(list.drop_last(), x);
    }
}

proof fn lemma_codes_len(texts: Seq<Seq<char>>)
    ensures
        codes_of_texts(texts) matches Ok(codes) ==> codes.len() == texts.len(),
    decreases texts.len(),
{
    if texts.len() > 0 {
        lemma_codes_len(texts.drop_last());
    }
}

impl Cli {
    /// A tool with no monitors, no options and no arguments.
    pub fn new() -> (r: Cli)
        ensures
            r.monitors@.len() == 0,
            r.backend is None,
            !r.needs_capabilities,
            !r.dry_run,
            r.verbose == 0,
            r.args@.len() == 0,
            r.progress.waiting is Idle,
    {
        Cli {
            monitors: Vec::new(),
            backend: None,
            needs_capabilities: false,
            dry_run: false,
            verbose: 0,
            args: Vec::new(),
            progress: Progress {
                commands: Vec::new(),
                arg: 0,
                command: None,
                by_index: false,
                visit: 0,
                matched: false,
                set_index: None,
                waiting: Waiting::Idle,
            },
        }
    }

    /// The toggle position after `current_input_source`: one past its first
    /// position in `input_sources`, or 0 when it is not there.
    pub fn compute_toggle_set_index(
        current_input_source: InputSourceRaw,
        input_sources: &[InputSourceRaw],
    ) -> (r: usize)
        ensures
            r == toggle_index(current_input_source, input_sources@),
    {
        proof {
            lemma_position_of_bound(input_sources@, current_input_source);
        }
        match position(current_input_source, input_sources) {
            Some(i) => i + 1,
            None => 0,
        }
    }

    /// Keeps only the monitors whose backend name holds the `backend`
    /// option, when there is one.
    pub fn apply_filters(&mut self)
        ensures
            final(self).monitors@ == match old(self).backend {
                Some(b) => with_backend(old(self).monitors@, b@),
                None => old(self).monitors@,
            },
            final(self).backend == old(self).backend,
            final(self).needs_capabilities == old(self).needs_capabilities,
            final(self).dry_run == old(self).dry_run,
            final(self).args == old(self).args,
    {
        if let Some(b) = &self.backend {
            let mut kept: Vec<Monitor> = Vec::new();
            let ghost all = self.monitors@;
            while self.monitors.len() > 0
                invariant
                    kept@ + with_backend(self.monitors@, b@) == with_backend(all, b@),
                    old(self).backend == Some(*b),
                    self.backend == old(self).backend,
                    self.needs_capabilities == old(self).needs_capabilities,
                    self.dry_run == old(self).dry_run,
                    self.args == old(self).args,
                decreases self.monitors@.len(),
            {
                let ghost rest = self.monitors@;
                let m = self.monitors.remove(0);
                assert(rest.drop_first() =~= self.monitors@);
                if m.contains_backend(b.as_str()) {
                    kept.push(m);
                    assert(kept@ + with_backend(self.monitors@, b@) =~= with_backend(all, b@));
                }
            }
            assert(kept@ =~= with_backend(all, b@));
            self.monitors = kept;
        }
    }
}


/// The number that `t` gives as a monitor index, if it reads as one.
pub open spec fn index_of(t: Seq<char>) -> Option<nat> {
    match parse_unsigned(t) {
        Some(n) => if n <= usize::MAX {
            Some(n)
        } else {
            None
        },
        None => None,
    }
}

/// The run waits for the outcome of work on one selected monitor.
pub open spec fn on_selected(w: Waiting) -> bool {
    w is ToggleRead || w is Write || w is DryRun || w is Describe || w is Print
}

/// From `a` to `b` the run went forward: the monitors, the options and the
/// arguments are those of `a`; no settle flag was raised, no capabilities
/// flag lowered; and within one argument the command and a fixed toggle
/// position stay as they were.
pub open spec fn kept_across(a: Cli, b: Cli) -> bool {
    &&& same_monitors(a.monitors@, b.monitors@)
    &&& b.backend == a.backend
    &&& b.needs_capabilities == a.needs_capabilities
    &&& b.dry_run == a.dry_run
    &&& b.verbose == a.verbose
    &&& b.args == a.args
    &&& b.progress.commands == a.progress.commands
    &&& forall|j: int|
        0 <= j < b.monitors@.len() ==> ((#[trigger] b.monitors@[j]).needs_sleep ==> a.monitors@[j].needs_sleep)
            && (a.monitors@[j].is_capabilities_updated ==> b.monitors@[j].is_capabilities_updated)
    &&& a.progress.arg <= b.progress.arg
    &&& (b.progress.arg == a.progress.arg && a.progress.command is Some) ==> b.progress.command
        == a.progress.command && b.progress.by_index == a.progress.by_index && (a.progress.set_index is Some
        ==> b.progress.set_index == a.progress.set_index)
}

fn command_target(c: &Command) -> (r: &str)
    ensures
        r@ == target(*c),
{
    match c {
        Command::Lookup(s) => s.as_str(),
        Command::Assign(s, _) => s.as_str(),
        Command::Toggle(s, _) => s.as_str(),
    }
}

/// `m` once its capabilities were asked for.
pub open spec fn with_capabilities(m: Monitor) -> Monitor {
    Monitor { is_capabilities_updated: true, ..m }
}

/// `m` with its settle flag set to `up`.
pub open spec fn with_sleep(m: Monitor, up: bool) -> Monitor {
    Monitor { needs_sleep: up, ..m }
}

/// Where the walk over the monitors for the text `t` stops, from `v` on:
/// at the first monitor whose capabilities are still to be fetched (when
/// `caps` asks for them) or that `t` selects; at the length when there is
/// none.
pub open spec fn stop_at(ms: Seq<Monitor>, caps: bool, t: Seq<char>, v: int) -> int
    decreases ms.len() - v,
{
    if v >= ms.len() {
        ms.len() as int
    } else if (caps && !ms[v].is_capabilities_updated) || selects(ms[v], t) {
        v
    } else {
        stop_at(ms, caps, t, v + 1)
    }
}

/// The first monitor from `v` on whose settle flag is up; the length when
/// there is none.
pub open spec fn due_at(ms: Seq<Monitor>, v: int) -> int
    decreases ms.len() - v,
{
    if v >= ms.len() {
        ms.len() as int
    } else if ms[v].needs_sleep {
        v
    } else {
        due_at(ms, v + 1)
    }
}

/// The request that writes `value`: a real write, or a reported one in a
/// dry run.
pub open spec fn write_request(dry_run: bool, device: usize, value: InputSourceRaw) -> Request {
    if dry_run {
        Request::DryRunInputSource { device, value }
    } else {
        Request::SetInputSource { device, value }
    }
}

/// The request that starts the work of the command under way in `s` on
/// monitor `j`: describe it, write the assigned code, or for a toggle read
/// the current code until a toggle position is fixed and then write the
/// code at that position.
pub open spec fn work_request(s: Cli, j: int) -> Request {
    let device = s.monitors@[j].device;
    match s.progress.command {
        Some(Command::Lookup(_)) => Request::Describe { device },
        Some(Command::Assign(_, v)) => write_request(s.dry_run, device, v),
        Some(Command::Toggle(_, list)) => match s.progress.set_index {
            None => Request::ReadInputSource { device },
            Some(k) => write_request(s.dry_run, device, toggle_pick(list@, k as nat)),
        },
        None => Request::Finished(Ok(())),
    }
}

/// The reply that a run waits for after the request `r`.
pub open spec fn waiting_for(r: Request) -> Waiting {
    match r {
        Request::UpdateCapabilities { .. } => Waiting::Capabilities,
        Request::ReadInputSource { .. } => Waiting::ToggleRead,
        Request::SetInputSource { .. } => Waiting::Write,
        Request::DryRunInputSource { .. } => Waiting::DryRun,
        Request::Describe { .. } => Waiting::Describe,
        Request::Print(_) => Waiting::Print,
        Request::Sleep { .. } => Waiting::Sleep,
        Request::Finished(_) => Waiting::Over,
    }
}

/// The progress at the start of the argument after the one under way.
pub open spec fn next_arg(p: Progress) -> Progress {
    Progress {
        commands: p.commands,
        arg: (p.arg + 1) as usize,
        command: None,
        by_index: false,
        visit: 0,
        matched: false,
        set_index: None,
        waiting: Waiting::Idle,
    }
}

/// The progress at the start of a run over `commands`.
pub open spec fn fresh_progress(commands: Vec<String>) -> Progress {
    Progress {
        commands,
        arg: 0,
        command: None,
        by_index: false,
        visit: 0,
        matched: false,
        set_index: None,
        waiting: Waiting::Idle,
    }
}

/// `b` is a run over the monitors `ms` that has ended.
pub open spec fn ended(p: Progress, ms: Seq<Monitor>, b: Cli) -> bool {
    &&& b.monitors@ == ms
    &&& b.progress.commands == p.commands
    &&& b.progress.waiting == Waiting::Over
}

/// The walk of the command under way in `p` over the monitors `ms` stops
/// at monitor `j`: `b` asks for its capabilities, or starts the work of the
/// command on it.
pub open spec fn stopped(p: Progress, caps: bool, ms: Seq<Monitor>, j: int, b: Cli, r: Request) -> bool {
    &&& b.progress.commands == p.commands
    &&& b.progress.arg == p.arg
    &&& b.progress.command == p.command
    &&& !b.progress.by_index
    &&& b.progress.visit == j
    &&& b.progress.set_index == p.set_index
    &&& if caps && !ms[j].is_capabilities_updated {
        &&& b.monitors@ == ms.update(j, with_capabilities(ms[j]))
        &&& b.progress.matched == p.matched
        &&& r == Request::UpdateCapabilities { device: ms[j].device }
    } else {
        &&& b.monitors@ == ms
        &&& b.progress.matched
        &&& r == work_request(b, j)
    }
    &&& b.progress.waiting == waiting_for(r)
}

/// From monitor `v` on, the monitors `ms` settle: `b` gives the next one
/// whose flag is up its settle time, or the run ends with success.
pub open spec fn settled(p: Progress, ms: Seq<Monitor>, v: int, b: Cli, r: Request) -> bool {
    let j = due_at(ms, v);
    &&& b.progress.commands == p.commands
    &&& b.progress.arg == p.arg
    &&& b.progress.command is None
    &&& if j < ms.len() {
        &&& b.monitors@ == ms.update(j, with_sleep(ms[j], false))
        &&& b.progress.visit == j + 1
        &&& r == Request::Sleep { device: ms[j].device }
    } else {
        &&& b.monitors@ == ms
        &&& r == Request::Finished(Ok(()))
    }
    &&& b.progress.waiting == waiting_for(r)
}

/// The argument at `p.arg` starts over the monitors `ms` (after the last
/// one, the monitors settle). An invalid input source, an index past the
/// end, or a text that selects no monitor ends the run with its error;
/// an index starts the work on that monitor; any other text walks the
/// monitors from the first.
pub open spec fn started(p: Progress, caps: bool, ms: Seq<Monitor>, b: Cli, r: Request) -> bool {
    if p.arg >= p.commands@.len() {
        settled(p, ms, 0, b, r)
    } else {
        let text = p.commands@[p.arg as int]@;
        let t = text_target(text);
        match parse_error(text) {
            Some(bad) => ended(p, ms, b) && (r matches Request::Finished(
                Err(Error::InvalidInputSource(s)),
            ) && s@ == bad),
            None => match index_of(t) {
                Some(i) => if i >= ms.len() {
                    ended(p, ms, b) && r == Request::Finished(
                        Err(Error::IndexOutOfRange { index: i as usize, len: ms.len() as usize }),
                    )
                } else {
                    &&& (b.progress.command matches Some(c) && command_fits(text, c))
                    &&& b.progress.commands == p.commands
                    &&& b.progress.arg == p.arg
                    &&& b.progress.by_index
                    &&& b.progress.visit == i
                    &&& b.progress.set_index is None
                    &&& b.monitors@ == ms
                    &&& r == work_request(b, i as int)
                    &&& b.progress.waiting == waiting_for(r)
                },
                None => {
                    &&& (b.progress.command matches Some(c) && command_fits(text, c))
                    &&& if stop_at(ms, caps, t, 0) < ms.len() {
                        stopped(
                            Progress {
                                command: b.progress.command,
                                by_index: false,
                                visit: 0,
                                matched: false,
                                set_index: None,
                                waiting: Waiting::Idle,
                                ..p
                            },
                            caps,
                            ms,
                            stop_at(ms, caps, t, 0),
                            b,
                            r,
                        )
                    } else {
                        ended(p, ms, b) && (r matches Request::Finished(Err(Error::NoMatch(s)))
                            && s@ == t)
                    }
                },
            },
        }
    }
}

/// The walk of the command under way in `p` goes on from monitor `v`: it
/// stops at the next monitor that needs the hardware; at the end, it fails
/// when it selected no monitor, else the next argument starts.
pub open spec fn walked(p: Progress, caps: bool, ms: Seq<Monitor>, v: int, b: Cli, r: Request) -> bool {
    let t = target(p.command->0);
    let j = stop_at(ms, caps, t, v);
    if j < ms.len() {
        stopped(p, caps, ms, j, b, r)
    } else if !p.matched {
        ended(p, ms, b) && (r matches Request::Finished(Err(Error::NoMatch(s))) && s@ == t)
    } else {
        started(next_arg(p), caps, ms, b, r)
    }
}

/// The command under way in `p` is done with the monitor under visit: by
/// index, the next argument starts; else the walk goes on after it.
pub open spec fn done(p: Progress, caps: bool, ms: Seq<Monitor>, b: Cli, r: Request) -> bool {
    if p.by_index {
        started(next_arg(p), caps, ms, b, r)
    } else {
        walked(p, caps, ms, p.visit + 1, b, r)
    }
}

proof fn lemma_stop_at(ms: Seq<Monitor>, caps: bool, t: Seq<char>, v: int)
    requires
        0 <= v <= ms.len(),
    ensures
        v <= stop_at(ms, caps, t, v) <= ms.len(),
        forall|j: int|
            v <= j < stop_at(ms, caps, t, v) ==> !selects(#[trigger] ms[j], t) && !(caps
                && !ms[j].is_capabilities_updated),
        stop_at(ms, caps, t, v) < ms.len() ==> (caps && !ms[stop_at(ms, caps, t, v)].is_capabilities_updated)
            || selects(ms[stop_at(ms, caps, t, v)], t),
    decreases ms.len() - v,
{
    if v < ms.len() {
        lemma_stop_at(ms, caps, t, v + 1);
    }
}

proof fn lemma_due_at(ms: Seq<Monitor>, v: int)
    requires
        0 <= v <= ms.len(),
    ensures
        v <= due_at(ms, v) <= ms.len(),
        forall|j: int| v <= j < due_at(ms, v) ==> !(#[trigger] ms[j]).needs_sleep,
        due_at(ms, v) < ms.len() ==> ms[due_at(ms, v)].needs_sleep,
    decreases ms.len() - v,
{
    if v < ms.len() {
        lemma_due_at(ms, v + 1);
    }
}

impl Cli {
    /// The state of the run is consistent.
    pub open spec fn wf(&self) -> bool {
        let p = self.progress;
        let len = self.monitors@.len();
        &&& p.arg <= p.commands@.len()
        &&& (p.command matches Some(Command::Toggle(_, list)) ==> list@.len() > 0)
        &&& (p.command is Some ==> p.arg < p.commands@.len())
        &&& (p.command matches Some(c) ==> command_fits(p.commands@[p.arg as int]@, c))
        &&& (p.command is Some && p.by_index ==> index_of(target(p.command->0)) == Some(p.visit as nat))
        &&& (p.command is Some && !p.by_index ==> index_of(target(p.command->0)) is None)
        &&& (p.command is Some && !p.by_index && !p.matched ==> forall|j: int|
            0 <= j < p.visit && j < len ==> !selects(#[trigger] self.monitors@[j], target(p.command->0)))
        &&& (p.waiting is Capabilities ==> p.command is Some && !p.by_index && p.visit < len)
        &&& (on_selected(p.waiting) ==> p.command is Some && p.visit < len && self.selected())
        &&& (on_selected(p.waiting) && !p.by_index ==> p.matched)
        &&& (p.waiting is ToggleRead ==> (p.command matches Some(Command::Toggle(_, _))) && p.set_index is None)
        &&& (p.waiting is Sleep ==> p.command is None && 0 < p.visit <= len && p.arg == p.commands@.len()
            && forall|j: int| 0 <= j < p.visit ==> !(#[trigger] self.monitors@[j]).needs_sleep)
    }

    /// The monitor under visit is one that the command under way selects.
    pub open spec fn selected(&self) -> bool {
        let p = self.progress;
        let t = target(p.command->0);
        if p.by_index {
            index_of(t) == Some(p.visit as nat)
        } else {
            index_of(t) is None && selects(self.monitors@[p.visit as int], t)
        }
    }

    /// `value` is what the command under way writes: its code, or for a
    /// toggle the code at the fixed toggle position.
    pub open spec fn value_fits(&self, value: InputSourceRaw) -> bool {
        match self.progress.command {
            Some(Command::Assign(_, v)) => value == v,
            Some(Command::Toggle(_, list)) => (self.progress.set_index matches Some(k) && value
                == toggle_pick(list@, k as nat)),
            _ => false,
        }
    }

    /// The request is one that the state of the run allows. Capabilities
    /// are asked for only when the option asks for them; the run ends with
    /// success only after the last argument, with every monitor settled.
    pub open spec fn request_fits(&self, r: Request) -> bool {
        let p = self.progress;
        let here = self.monitors@[p.visit as int].device;
        match r {
            Request::UpdateCapabilities { device } => p.waiting is Capabilities && self.needs_capabilities
                && device == here,
            Request::ReadInputSource { device } => p.waiting is ToggleRead && device == here,
            Request::SetInputSource { device, value } => p.waiting is Write && !self.dry_run && device
                == here && self.value_fits(value),
            Request::DryRunInputSource { device, value } => p.waiting is DryRun && self.dry_run
                && device == here && self.value_fits(value),
            Request::Describe { device } => p.waiting is Describe && device == here,
            Request::Print(_) => p.waiting is Print,
            Request::Sleep { device } => p.waiting is Sleep && device == self.monitors@[p.visit
                - 1].device && !self.monitors@[p.visit - 1].needs_sleep,
            Request::Finished(res) => {
                &&& p.waiting is Over
                &&& (res matches Err(Error::NoMatch(t)) ==> forall|j: int|
                    0 <= j < self.monitors@.len() ==> !selects(#[trigger] self.monitors@[j], t@))
                &&& (res is Ok ==> p.arg == p.commands@.len() && forall|j: int|
                    0 <= j < self.monitors@.len() ==> !(#[trigger] self.monitors@[j]).needs_sleep)
            },
        }
    }

    /// `reply` answers the request that the run waits on.
    pub open spec fn expects(&self, reply: Reply) -> bool {
        match self.progress.waiting {
            Waiting::ToggleRead => reply is InputSource,
            Waiting::Write => reply is Written,
            Waiting::Describe => reply is Description,
            Waiting::Capabilities | Waiting::DryRun | Waiting::Print | Waiting::Sleep => true,
            Waiting::Idle | Waiting::Over => false,
        }
    }

    /// Whether `reply` answers the request that the run waits on.
    pub fn accepts(&self, reply: &Reply) -> (r: bool)
        ensures
            r == self.expects(*reply),
    {
        match self.progress.waiting {
            Waiting::ToggleRead => matches!(reply, Reply::InputSource(_)),
            Waiting::Write => matches!(reply, Reply::Written(_)),
            Waiting::Describe => matches!(reply, Reply::Description { .. }),
            Waiting::Capabilities | Waiting::DryRun | Waiting::Print | Waiting::Sleep => true,
            Waiting::Idle | Waiting::Over => false,
        }
    }

    fn finish(&mut self, result: Result<(), Error>) -> (r: Request)
        requires
            old(self).wf(),
            old(self).progress.waiting != Waiting::Sleep,
            result matches Err(Error::NoMatch(t)) ==> forall|j: int|
                0 <= j < old(self).monitors@.len() ==> !selects(#[trigger] old(self).monitors@[j], t@),
            result is Err,
        ensures
            final(self).wf(),
            kept_across(*old(self), *final(self)),
            final(self).request_fits(r),
            r == Request::Finished(result),
            final(self).monitors == old(self).monitors,
            final(self).progress == (Progress { waiting: Waiting::Over, ..old(self).progress }),
    {
        self.progress.waiting = Waiting::Over;
        Request::Finished(result)
    }

    fn write(&mut self, value: InputSourceRaw) -> (r: Request)
        requires
            old(self).wf(),
            old(self).progress.by_index || old(self).progress.matched,
            old(self).progress.command is Some,
            old(self).progress.visit < old(self).monitors@.len(),
            old(self).selected(),
            old(self).value_fits(value),
        ensures
            final(self).wf(),
            kept_across(*old(self), *final(self)),
            final(self).request_fits(r),
            r == write_request(old(self).dry_run, old(self).monitors@[old(self).progress.visit as int].device, value),
            final(self).monitors == old(self).monitors,
            final(self).progress == (Progress { waiting: waiting_for(r), ..old(self).progress }),
    {
        let device = self.monitors[self.progress.visit].device;
        if self.dry_run {
            self.progress.waiting = Waiting::DryRun;
            Request::DryRunInputSource { device, value }
        } else {
            self.progress.waiting = Waiting::Write;
            Request::SetInputSource { device, value }
        }
    }

    /// Starts the work of the command under way on the monitor under visit.
    fn invoke(&mut self) -> (r: Request)
        requires
            old(self).wf(),
            old(self).progress.by_index || old(self).progress.matched,
            old(self).progress.command is Some,
            old(self).progress.visit < old(self).monitors@.len(),
            old(self).selected(),
        ensures
            final(self).wf(),
            kept_across(*old(self), *final(self)),
            final(self).request_fits(r),
            r == work_request(*old(self), old(self).progress.visit as int),
            final(self).monitors == old(self).monitors,
            final(self).progress == (Progress { waiting: waiting_for(r), ..old(self).progress }),
    {
        let device = self.monitors[self.progress.visit].device;
        let mut value: InputSourceRaw = 0;
        match &self.progress.command {
            Some(Command::Lookup(_)) => {
                self.progress.waiting = Waiting::Describe;
                return Request::Describe { device };
            },
            Some(Command::Assign(_, v)) => {
                value = *v;
            },
            Some(Command::Toggle(_, list)) => {
                match self.progress.set_index {
                    None => {
                        self.progress.waiting = Waiting::ToggleRead;
                        return Request::ReadInputSource { device };
                    },
                    Some(k) => {
                        let i = if k < list.len() {
                            k
                        } else {
                            list.len() - 1
                        };
                        value = list[i];
                    },
                }
            },
            None => {},
        }
        self.write(value)
    }

    /// Walks the monitors from the one under visit, until one needs the
    /// hardware: its capabilities, or the work of the command under way.
    /// `None` when the walk reached the end.
    fn scan(&mut self) -> (r: Option<Request>)
        requires
            old(self).wf(),
            old(self).progress.command is Some,
            !old(self).progress.by_index,
            old(self).progress.visit <= old(self).monitors@.len(),
            old(self).progress.waiting != Waiting::Sleep,
        ensures
            final(self).wf(),
            kept_across(*old(self), *final(self)),
            final(self).progress.waiting != Waiting::Sleep,
            match r {
                Some(q) => final(self).request_fits(q) && !(q is Finished) && stop_at(
                    old(self).monitors@,
                    old(self).needs_capabilities,
                    target(old(self).progress.command->0),
                    old(self).progress.visit as int,
                ) < old(self).monitors@.len() && stopped(
                    old(self).progress,
                    old(self).needs_capabilities,
                    old(self).monitors@,
                    stop_at(
                        old(self).monitors@,
                        old(self).needs_capabilities,
                        target(old(self).progress.command->0),
                        old(self).progress.visit as int,
                    ),
                    *final(self),
                    q,
                ),
                None => stop_at(
                    old(self).monitors@,
                    old(self).needs_capabilities,
                    target(old(self).progress.command->0),
                    old(self).progress.visit as int,
                ) == old(self).monitors@.len() && final(self).monitors@ == old(self).monitors@
                    && final(self).progress.visit == old(self).monitors@.len() && final(self).progress
                    == (Progress { visit: final(self).progress.visit, waiting: Waiting::Idle, ..old(self).progress }),
            },
    {
        let n = self.monitors.len();
        let ghost t = target(self.progress.command->0);
        let ghost ms = self.monitors@;
        let ghost caps = self.needs_capabilities;
        self.progress.waiting = Waiting::Idle;
        proof {
            lemma_stop_at(ms, caps, t, self.progress.visit as int);
        }
        while self.progress.visit < n
            invariant
                self.wf(),
                kept_across(*old(self), *self),
                self.progress == (Progress {
                    visit: self.progress.visit,
                    waiting: Waiting::Idle,
                    ..old(self).progress
                }),
                old(self).progress.visit <= self.progress.visit <= n,
                n == self.monitors@.len(),
                self.monitors@ == ms,
                ms == old(self).monitors@,
                old(self).progress.command is Some,
                !old(self).progress.by_index,
                caps == self.needs_capabilities,
                caps == old(self).needs_capabilities,
                t == target(old(self).progress.command->0),
                stop_at(ms, caps, t, old(self).progress.visit as int) >= self.progress.visit,
                forall|j: int|
                    old(self).progress.visit <= j < stop_at(ms, caps, t, old(self).progress.visit as int)
                        ==> !selects(#[trigger] ms[j], t) && !(caps && !ms[j].is_capabilities_updated),
                stop_at(ms, caps, t, old(self).progress.visit as int) < ms.len() ==> (caps
                    && !ms[stop_at(ms, caps, t, old(self).progress.visit as int)].is_capabilities_updated)
                    || selects(ms[stop_at(ms, caps, t, old(self).progress.visit as int)], t),
            decreases n - self.progress.visit,
        {
            let ghost start = *self;
            let v = self.progress.visit;
            if self.needs_capabilities && !self.monitors[v].is_capabilities_updated {
                self.monitors[v].update_capabilities();
                self.progress.waiting = Waiting::Capabilities;
                proof {
                    assert(self.monitors@ =~= ms.update(v as int, with_capabilities(ms[v as int])));
                    assert forall|j: int| 0 <= j < v implies self.monitors@[j] == ms[j] by {}
                    lemma_kept_across_trans(*old(self), start, *self);
                }
                return Some(Request::UpdateCapabilities { device: self.monitors[v].device });
            }
            let selected = match &self.progress.command {
                Some(c) => {
                    let name = command_target(c);
                    name.unicode_len() == 0 || self.monitors[v].contains(name)
                },
                None => false,
            };
            if selected {
                self.progress.matched = true;
                let ghost before = *self;
                let q = self.invoke();
                proof {
                    lemma_kept_across_trans(start, before, *self);
                    lemma_kept_across_trans(*old(self), start, *self);
                }
                return Some(q);
            }
            proof {
                assert(!selects(ms[v as int], t));
                assert(!(caps && !ms[v as int].is_capabilities_updated));
            }
            self.progress.visit = v + 1;
            proof {
                assert(kept_across(start, *self));
                lemma_kept_across_trans(*old(self), start, *self);
            }
        }
        None
    }

    /// Gives every monitor whose settle flag is up, from the one under
    /// visit on, its settle time; then ends the run.
    fn settle(&mut self) -> (r: Request)
        requires
            old(self).wf(),
            old(self).progress.command is None,
            old(self).progress.visit <= old(self).monitors@.len(),
            old(self).progress.arg == old(self).progress.commands@.len(),
            forall|j: int| 0 <= j < old(self).progress.visit ==> !(#[trigger] old(self).monitors@[j]).needs_sleep,
        ensures
            final(self).wf(),
            kept_across(*old(self), *final(self)),
            final(self).request_fits(r),
            r matches Request::Sleep { .. } ==> old(self).monitors@[final(self).progress.visit - 1].needs_sleep,
            settled(old(self).progress, old(self).monitors@, old(self).progress.visit as int, *final(self), r),
    {
        let n = self.monitors.len();
        let ghost ms = self.monitors@;
        proof {
            lemma_due_at(ms, self.progress.visit as int);
        }
        while self.progress.visit < n
            invariant
                self.wf(),
                kept_across(*old(self), *self),
                self.progress == (Progress { visit: self.progress.visit, ..old(self).progress }),
                old(self).progress.command is None,
                old(self).progress.arg == old(self).progress.commands@.len(),
                old(self).progress.visit <= self.progress.visit <= n,
                n == self.monitors@.len(),
                self.monitors@ == ms,
                ms == old(self).monitors@,
                due_at(ms, old(self).progress.visit as int) >= self.progress.visit,
                forall|j: int| 0 <= j < self.progress.visit ==> !(#[trigger] ms[j]).needs_sleep,
                forall|j: int|
                    old(self).progress.visit <= j < due_at(ms, old(self).progress.visit as int)
                        ==> !(#[trigger] ms[j]).needs_sleep,
                due_at(ms, old(self).progress.visit as int) < ms.len() ==> ms[due_at(ms, old(self).progress.visit as int)].needs_sleep,
            decreases n - self.progress.visit,
        {
            let v = self.progress.visit;
            if self.monitors[v].needs_sleep {
                let ghost start = *self;
                self.monitors[v].sleep_if_needed();
                self.progress.visit = v + 1;
                self.progress.waiting = Waiting::Sleep;
                proof {
                    assert(self.monitors@ =~= ms.update(v as int, with_sleep(ms[v as int], false)));
                    assert forall|j: int| 0 <= j < self.progress.visit implies !(#[trigger] self.monitors@[j]).needs_sleep by {
                        if j < v {
                            assert(self.monitors@[j] == ms[j]);
                        }
                    }
                    assert(kept_across(start, *self));
                    lemma_kept_across_trans(*old(self), start, *self);
                }
                return Request::Sleep { device: self.monitors[v].device };
            }
            self.progress.visit = v + 1;
            proof {
                assert forall|j: int| 0 <= j < self.progress.visit implies !(#[trigger] self.monitors@[j]).needs_sleep by {
                    assert(self.monitors@[j] == ms[j]);
                }
            }
        }
        self.progress.waiting = Waiting::Over;
        Request::Finished(Ok(()))
    }

    /// Starts the argument at `arg`, or after the last one lets the
    /// monitors settle.
    fn next_command(&mut self) -> (r: Request)
        requires
            old(self).wf(),
            old(self).progress.command is None,
            old(self).progress.waiting == Waiting::Idle,
        ensures
            final(self).wf(),
            kept_across(*old(self), *final(self)),
            final(self).request_fits(r),
            r matches Request::Sleep { .. } ==> old(self).monitors@[final(self).progress.visit - 1].needs_sleep,
            started(old(self).progress, old(self).needs_capabilities, old(self).monitors@, *final(self), r),
    {
        let n = self.progress.commands.len();
        let len = self.monitors.len();
        let a = self.progress.arg;
        if a >= n {
            self.progress.visit = 0;
            let ghost before = *self;
            let q = self.settle();
            proof {
                lemma_kept_across_trans(*old(self), before, *self);
            }
            return q;
        }
        let parsed = Command::parse(self.progress.commands[a].as_str());
        let c = match parsed {
            Err(e) => {
                return self.finish(Err(e));
            },
            Ok(c) => c,
        };
        proof {
            lemma_toggle_list(self.progress.commands@[a as int]@, c);
            lemma_target_fits(self.progress.commands@[a as int]@, c);
        }
        let index = parse_unsigned_at_most(command_target(&c), usize::MAX);
        if let Some(i) = index {
            if i >= len {
                return self.finish(Err(Error::IndexOutOfRange { index: i, len }));
            }
        }
        self.progress.command = Some(c);
        self.progress.set_index = None;
        self.progress.matched = false;
        match index {
            Some(i) => {
                self.progress.by_index = true;
                self.progress.visit = i;
                let ghost before = *self;
                let q = self.invoke();
                proof {
                    lemma_kept_across_trans(*old(self), before, *self);
                }
                q
            },
            None => {
                self.progress.by_index = false;
                self.progress.visit = 0;
                let ghost before = *self;
                let found = self.scan();
                proof {
                    lemma_kept_across_trans(*old(self), before, *self);
                    lemma_stop_at(before.monitors@, before.needs_capabilities, target(before.progress.command->0), 0);
                }
                match found {
                    Some(q) => q,
                    None => {
                        let ghost after_scan = *self;
                        let q = self.no_match();
                        proof {
                            lemma_kept_across_trans(*old(self), after_scan, *self);
                        }
                        q
                    },
                }
            },
        }
    }

    /// Ends the run: the walk over the monitors selected none.
    fn no_match(&mut self) -> (r: Request)
        requires
            old(self).wf(),
            old(self).progress.command is Some,
            !old(self).progress.by_index,
            !old(self).progress.matched,
            old(self).progress.visit == old(self).monitors@.len(),
            old(self).progress.waiting != Waiting::Sleep,
        ensures
            final(self).wf(),
            kept_across(*old(self), *final(self)),
            final(self).request_fits(r),
            ended(old(self).progress, old(self).monitors@, *final(self)),
            final(self).progress == (Progress { waiting: Waiting::Over, ..old(self).progress }),
            r matches Request::Finished(Err(Error::NoMatch(s))) && s@ == target(old(self).progress.command->0),
    {
        let name = match &self.progress.command {
            Some(c) => String::from_str(command_target(c)),
            None => String::new(),
        };
        self.finish(Err(Error::NoMatch(name)))
    }

    /// The command under way is done with the monitor under visit: go on
    /// with the next selected monitor, or with the next argument.
    fn callback_done(&mut self) -> (r: Request)
        requires
            old(self).wf(),
            on_selected(old(self).progress.waiting),
        ensures
            final(self).wf(),
            kept_across(*old(self), *final(self)),
            final(self).request_fits(r),
            r matches Request::Sleep { .. } ==> old(self).monitors@[final(self).progress.visit - 1].needs_sleep,
            done(old(self).progress, old(self).needs_capabilities, old(self).monitors@, *final(self), r),
    {
        let ghost old_progress = self.progress;
        self.progress.waiting = Waiting::Idle;
        if self.progress.by_index {
            self.to_next_arg();
            proof {
                assert(self.progress == next_arg(old_progress));
            }
            let ghost before = *self;
            let q = self.next_command();
            proof {
                lemma_kept_across_trans(*old(self), before, *self);
            }
            return q;
        }
        let len = self.monitors.len();
        if self.progress.visit < len {
            self.progress.visit = self.progress.visit + 1;
        }
        let ghost before = *self;
        let q = self.continue_scan();
        proof {
            lemma_kept_across_trans(*old(self), before, *self);
        }
        q
    }

    /// Moves on to the argument after the one under way.
    fn to_next_arg(&mut self)
        requires
            old(self).wf(),
            old(self).progress.command is Some,
            old(self).progress.waiting == Waiting::Idle,
        ensures
            final(self).wf(),
            kept_across(*old(self), *final(self)),
            final(self).monitors == old(self).monitors,
            final(self).progress == next_arg(old(self).progress),
    {
        let n = self.progress.commands.len();
        self.progress.command = None;
        if self.progress.arg < n {
            self.progress.arg = self.progress.arg + 1;
        }
        self.progress.by_index = false;
        self.progress.visit = 0;
        self.progress.matched = false;
        self.progress.set_index = None;
    }

    /// Goes on with the walk over the monitors; when it reaches the end,
    /// the argument is done, or fails when it selected no monitor.
    fn continue_scan(&mut self) -> (r: Request)
        requires
            old(self).wf(),
            old(self).progress.command is Some,
            !old(self).progress.by_index,
            old(self).progress.visit <= old(self).monitors@.len(),
            old(self).progress.waiting != Waiting::Sleep,
        ensures
            final(self).wf(),
            kept_across(*old(self), *final(self)),
            final(self).request_fits(r),
            r matches Request::Sleep { .. } ==> old(self).monitors@[final(self).progress.visit - 1].needs_sleep,
            walked(
                old(self).progress,
                old(self).needs_capabilities,
                old(self).monitors@,
                old(self).progress.visit as int,
                *final(self),
                r,
            ),
    {
        let found = self.scan();
        match found {
            Some(q) => q,
            None => {
                let ghost after_scan = *self;
                if !self.progress.matched {
                    let q = self.no_match();
                    proof {
                        lemma_kept_across_trans(*old(self), after_scan, *self);
                    }
                    return q;
                }
                self.to_next_arg();
                let ghost before_next = *self;
                let q = self.next_command();
                proof {
                    lemma_kept_across_trans(*old(self), after_scan, before_next);
                    lemma_kept_across_trans(*old(self), before_next, *self);
                }
                q
            },
        }
    }
}

proof fn lemma_kept_across_trans(a: Cli, b: Cli, c: Cli)
    requires
        kept_across(a, b),
        kept_across(b, c),
    ensures
        kept_across(a, c),
{
    assert forall|j: int| 0 <= j < c.monitors@.len() implies ((#[trigger] c.monitors@[j]).needs_sleep
        ==> a.monitors@[j].needs_sleep) && (a.monitors@[j].is_capabilities_updated
        ==> c.monitors@[j].is_capabilities_updated) by {
        assert(c.monitors@[j].needs_sleep ==> b.monitors@[j].needs_sleep);
        assert(b.monitors@[j].needs_sleep ==> a.monitors@[j].needs_sleep);
        assert(a.monitors@[j].is_capabilities_updated ==> b.monitors@[j].is_capabilities_updated);
    }
    assert forall|j: int| 0 <= j < a.monitors@.len() implies (#[trigger] a.monitors@[j]).device
        == c.monitors@[j].device && a.monitors@[j].id == c.monitors@[j].id && a.monitors@[j].backend
        == c.monitors@[j].backend by {
        assert(a.monitors@[j].device == b.monitors@[j].device);
        assert(b.monitors@[j].device == c.monitors@[j].device);
    }
}

/// The text that selects the monitors of a command is the one of its
/// argument.
proof fn lemma_target_fits(arg: Seq<char>, c: Command)
    requires
        command_fits(arg, c),
    ensures
        target(c) == text_target(arg),
{
}

/// The list of a toggle command is not empty.
proof fn lemma_toggle_list(arg: Seq<char>, c: Command)
    requires
        command_fits(arg, c),
    ensures
        c matches Command::Toggle(_, list) ==> list@.len() > 0,
{
    if let Some((n, v)) = crate::command::assignment_parts(arg) {
        lemma_split_on_len(v, ',');
        lemma_codes_len(split_on(v, ','));
    }
}

impl Cli {
    /// Starts a run: keeps the monitors of the chosen backend, then runs the
    /// arguments in order, an empty lookup when there are none. The request
    /// is the first one that needs the hardware, or the end of the run.
    pub fn start(&mut self) -> (r: Request)
        ensures
            final(self).wf(),
            final(self).request_fits(r),
            started(
                fresh_progress(final(self).progress.commands),
                old(self).needs_capabilities,
                match old(self).backend {
                    Some(b) => with_backend(old(self).monitors@, b@),
                    None => old(self).monitors@,
                },
                *final(self),
                r,
            ),
            final(self).backend == old(self).backend,
            final(self).needs_capabilities == old(self).needs_capabilities,
            final(self).dry_run == old(self).dry_run,
            final(self).args == old(self).args,
            old(self).args@.len() == 0 ==> final(self).progress.commands@.len() == 1
                && final(self).progress.commands@[0]@.len() == 0,
            old(self).args@.len() > 0 ==> final(self).progress.commands@ == old(self).args@,
    {
        self.apply_filters();
        let mut commands: Vec<String> = Vec::new();
        if self.args.len() == 0 {
            commands.push(String::new());
        } else {
            let mut i: usize = 0;
            while i < self.args.len()
                invariant
                    i <= self.args@.len(),
                    commands@ == self.args@.take(i as int),
                decreases self.args@.len() - i,
            {
                commands.push(self.args[i].clone());
                assert(commands@ =~= self.args@.take(i + 1));
                i = i + 1;
            }
            assert(self.args@.take(self.args@.len() as int) =~= self.args@);
        }
        self.progress = Progress {
            commands,
            arg: 0,
            command: None,
            by_index: false,
            visit: 0,
            matched: false,
            set_index: None,
            waiting: Waiting::Idle,
        };
        self.next_command()
    }

    /// Goes on with the run once the hardware answered the last request
    /// with `reply`. The request is the next one that needs the hardware,
    /// or the end of the run:
    /// - after capabilities, the walk over the monitors goes on;
    /// - after the read that fixes a toggle position, the toggle position is
    ///   the one after the code read, and the monitor is written;
    /// - after a successful write, the monitor's settle flag is up and the
    ///   command goes on; a write or read that failed ends the run with its
    ///   text;
    /// - after a description, its line is printed;
    /// - after a settle, the next monitor whose flag is up settles.
    pub fn resume(&mut self, reply: Reply) -> (r: Request)
        requires
            old(self).wf(),
            old(self).expects(reply),
        ensures
            final(self).wf(),
            final(self).request_fits(r),
            same_monitors(old(self).monitors@, final(self).monitors@),
            final(self).backend == old(self).backend,
            final(self).needs_capabilities == old(self).needs_capabilities,
            final(self).dry_run == old(self).dry_run,
            final(self).args == old(self).args,
            final(self).progress.commands == old(self).progress.commands,
            match old(self).progress.waiting {
                Waiting::Capabilities => walked(
                    old(self).progress,
                    old(self).needs_capabilities,
                    old(self).monitors@,
                    old(self).progress.visit as int,
                    *final(self),
                    r,
                ),
                Waiting::ToggleRead => match reply {
                    Reply::InputSource(Ok(v)) => match old(self).progress.command {
                        Some(Command::Toggle(_, list)) => {
                            &&& final(self).monitors@ == old(self).monitors@
                            &&& final(self).progress == (Progress {
                                set_index: Some(toggle_index(v, list@) as usize),
                                waiting: waiting_for(r),
                                ..old(self).progress
                            })
                            &&& r == work_request(*final(self), old(self).progress.visit as int)
                        },
                        _ => false,
                    },
                    Reply::InputSource(Err(e)) => r == Request::Finished(Err(Error::Device(e)))
                        && ended(old(self).progress, old(self).monitors@, *final(self)),
                    _ => false,
                },
                Waiting::Write => match reply {
                    Reply::Written(Ok(_)) => done(
                        old(self).progress,
                        old(self).needs_capabilities,
                        old(self).monitors@.update(
                            old(self).progress.visit as int,
                            with_sleep(old(self).monitors@[old(self).progress.visit as int], true),
                        ),
                        *final(self),
                        r,
                    ),
                    Reply::Written(Err(e)) => r == Request::Finished(Err(Error::Device(e))) && ended(
                        old(self).progress,
                        old(self).monitors@,
                        *final(self),
                    ),
                    _ => false,
                },
                Waiting::DryRun | Waiting::Print => done(
                    old(self).progress,
                    old(self).needs_capabilities,
                    old(self).monitors@,
                    *final(self),
                    r,
                ),
                Waiting::Describe => match reply {
                    Reply::Description { current, sources, model } => {
                        &&& final(self).monitors@ == old(self).monitors@
                        &&& final(self).progress == (Progress { waiting: Waiting::Print, ..old(self).progress })
                        &&& (r matches Request::Print(t) && t@ == decimal(old(self).progress.visit as nat)
                            + ": "@ + description(
                            old(self).monitors@[old(self).progress.visit as int].id@,
                            old(self).monitors@[old(self).progress.visit as int].backend@,
                            current,
                            match sources {
                                Some(v) => Some(v@),
                                None => None,
                            },
                            match model {
                                Some(m) => Some(m@),
                                None => None,
                            },
                        ))
                    },
                    _ => false,
                },
                Waiting::Sleep => settled(
                    old(self).progress,
                    old(self).monitors@,
                    old(self).progress.visit as int,
                    *final(self),
                    r,
                ),
                Waiting::Idle | Waiting::Over => false,
            },
    {
        match self.progress.waiting {
            Waiting::Capabilities => self.continue_scan(),
            Waiting::ToggleRead => match reply {
                Reply::InputSource(Ok(v)) => {
                    let k = match &self.progress.command {
                        Some(Command::Toggle(_, list)) => {
                            proof {
                                lemma_position_of_bound(list@, v);
                            }
                            Cli::compute_toggle_set_index(v, list.as_slice())
                        },
                        _ => 0,
                    };
                    self.progress.waiting = Waiting::Idle;
                    self.progress.set_index = Some(k);
                    self.invoke()
                },
                Reply::InputSource(Err(e)) => self.finish(Err(Error::Device(e))),
                _ => {
                    proof {
                        assert(false);
                    }
                    self.finish(Err(Error::Device(String::new())))
                },
            },
            Waiting::Write => match reply {
                Reply::Written(Ok(())) => {
                    let v = self.progress.visit;
                    self.monitors[v].record_write();
                    proof {
                        assert(self.monitors@ =~= old(self).monitors@.update(
                            v as int,
                            with_sleep(old(self).monitors@[v as int], true),
                        ));
                    }
                    let ghost before = *self;
                    let q = self.callback_done();
                    proof {
                        assert forall|j: int| 0 <= j < old(self).monitors@.len() implies (#[trigger] old(self).monitors@[j]).device == self.monitors@[j].device && old(self).monitors@[j].id == self.monitors@[j].id && old(self).monitors@[j].backend == self.monitors@[j].backend by {
                            assert(before.monitors@[j].device == self.monitors@[j].device);
                        }
                    }
                    q
                },
                Reply::Written(Err(e)) => self.finish(Err(Error::Device(e))),
                _ => {
                    proof {
                        assert(false);
                    }
                    self.finish(Err(Error::Device(String::new())))
                },
            },
            Waiting::DryRun | Waiting::Print => self.callback_done(),
            Waiting::Describe => match reply {
                Reply::Description { current, sources, model } => {
                    let v = self.progress.visit;
                    let text = self.monitors[v].to_long_string(&current, &sources, &model);
                    let line = decimal_string(v).concat(": ").concat(text.as_str());
                    self.progress.waiting = Waiting::Print;
                    Request::Print(line)
                },
                _ => {
                    proof {
                        assert(false);
                    }
                    self.finish(Err(Error::Device(String::new())))
                },
            },
            Waiting::Sleep => self.settle(),
            Waiting::Idle | Waiting::Over => {
                proof {
                    assert(false);
                }
                self.finish(Err(Error::Device(String::new())))
            },
        }
    }
}

} // verus!
