//! A whole run: stowing, unstowing or restowing a list of packages.
//!
//! The runner decides; the caller does the filesystem work. Each call of
//! [`Runner::step`] takes the outcome of the previous command and returns the
//! lines to write out and the next command: scan a package, execute actions,
//! clean up empty directories, or finish.

use vstd::prelude::*;

use crate::cleanup::{unstowed_links, unstowed_links_of};
use crate::conflict::{ConflictSet, ConflictView};
use crate::path::PathView;
use crate::ignore::Patterns;
use crate::scan::PackageScan;
use crate::stow::{
    action_text, plan_stow, plan_unstow, stow_package_plan, unstow_package_plan, Action,
    ActionView, Plan,
};
use crate::vecs::{append_deep, push_deep};
use crate::{Config, Operation, StowError, StowErrorView};

verus! {

/// Which half of a run.
#[derive(Debug, Clone, Copy, PartialEq, Eq, Structural)]
pub enum Stage {
    Unstow,
    Stow,
}

/// Where a run stands.
#[derive(Debug, Clone, Copy, PartialEq, Eq, Structural)]
pub enum Phase {
    /// Not started.
    Idle,
    /// Waiting for the scan of the next package.
    Planning(Stage),
    /// Waiting for the actions to be executed.
    Executing(Stage),
    /// Waiting for the empty directories to be cleaned up.
    Cleaning,
    /// Finished.
    Done,
}

/// What the caller hands back.
pub enum Event {
    /// Begin the run.
    Start,
    /// The scan asked for by [`Command::Scan`].
    Scanned(PackageScan),
    /// The outcome of [`Command::Execute`] or [`Command::Cleanup`].
    Completed(Result<(), StowError>),
}

/// What the caller does next.
#[derive(Debug)]
pub enum Command {
    /// Scan the package of this name.
    Scan(String),
    /// Execute these actions in order.
    Execute(Vec<Action>),
    /// Remove the directories of the target left empty that held one of
    /// these links, just removed.
    Cleanup(Vec<Vec<String>>),
    /// The run is over, with this result.
    Finish(Result<(), StowError>),
}

/// A line to write out before doing the command.
#[derive(Debug, PartialEq, Eq)]
pub struct Output {
    /// Whether the line goes to standard error (else standard output).
    pub to_stderr: bool,
    pub line: String,
}

/// The abstract value of a [`Command`].
pub enum CommandView {
    Scan(Seq<char>),
    Execute(Seq<ActionView>),
    Cleanup(Seq<PathView>),
    Finish(Result<(), StowErrorView>),
}

/// The abstract value of an [`Output`].
pub struct OutputView {
    pub to_stderr: bool,
    pub line: Seq<char>,
}

impl DeepView for Command {
    type V = CommandView;

    open spec fn deep_view(&self) -> CommandView {
        match self {
            Command::Scan(name) => CommandView::Scan(name@),
            Command::Execute(actions) => CommandView::Execute(actions.deep_view()),
            Command::Cleanup(links) => CommandView::Cleanup(links.deep_view()),
            Command::Finish(Ok(())) => CommandView::Finish(Ok(())),
            Command::Finish(Err(e)) => CommandView::Finish(Err(e.deep_view())),
        }
    }
}

impl DeepView for Output {
    type V = OutputView;

    open spec fn deep_view(&self) -> OutputView {
        OutputView { to_stderr: self.to_stderr, line: self.line@ }
    }
}

/// The state of a run.
pub struct Runner {
    config: Config,
    packages: Vec<String>,
    phase: Phase,
    next: usize,
    pending: Vec<Action>,
    conflicts: ConflictSet,
    unstowed: Vec<Vec<String>>,
}

/// The abstract state of a run.
pub struct RunnerView {
    pub operation: Operation,
    pub dry_run: bool,
    pub adopt: bool,
    pub verbose: u8,
    pub packages: Seq<Seq<char>>,
    pub phase: Phase,
    /// The index of the package being planned or executed.
    pub next: int,
    /// Actions planned and not yet handed out.
    pub pending: Seq<ActionView>,
    /// Conflicts collected over the packages of a dry-run stow.
    pub conflicts: Seq<ConflictView>,
    /// The links removed by the unstow being executed, for the cleanup.
    pub unstowed: Seq<PathView>,
}

impl View for Runner {
    type V = RunnerView;

    closed spec fn view(&self) -> RunnerView {
        RunnerView {
            operation: self.config.operation,
            dry_run: self.config.dry_run,
            adopt: self.config.adopt,
            verbose: self.config.verbose,
            packages: self.packages.deep_view(),
            phase: self.phase,
            next: self.next as int,
            pending: self.pending.deep_view(),
            conflicts: self.conflicts.items(),
            unstowed: self.unstowed.deep_view(),
        }
    }
}

/// A state, the lines written, and the command.
pub type Transition = (RunnerView, Seq<OutputView>, CommandView);

/// The lines `prefix` + description of each action, in order.
pub open spec fn action_lines(actions: Seq<ActionView>, prefix: Seq<char>, to_stderr: bool) -> Seq<
    OutputView,
> {
    actions.map_values(|a: ActionView| OutputView { to_stderr, line: prefix + action_text(a) })
}

/// The verbose report of planned actions: shown from verbosity 2.
pub open spec fn planned_lines(v: RunnerView, actions: Seq<ActionView>) -> Seq<OutputView> {
    if v.verbose >= 2 {
        action_lines(actions, "[bestow] planned: "@, true)
    } else {
        Seq::empty()
    }
}

/// The dry-run report of actions, on standard output.
pub open spec fn dry_run_lines(actions: Seq<ActionView>) -> Seq<OutputView> {
    action_lines(actions, "[dry-run] "@, false)
}

/// Ends the run.
pub open spec fn finish(v: RunnerView, out: Seq<OutputView>, r: Result<(), StowErrorView>) -> Transition {
    (RunnerView { phase: Phase::Done, ..v }, out, CommandView::Finish(r))
}

/// Starts the stow half: the packages are planned and executed one at a time,
/// each seeing what the previous one did.
pub open spec fn begin_stow(v: RunnerView, out: Seq<OutputView>) -> Transition {
    let v2 = RunnerView {
        next: 0,
        pending: Seq::empty(),
        conflicts: Seq::empty(),
        unstowed: Seq::empty(),
        ..v
    };
    if v.packages.len() == 0 {
        finish(v2, out, Ok(()))
    } else {
        (RunnerView { phase: Phase::Planning(Stage::Stow), ..v2 }, out, CommandView::Scan(v.packages[0]))
    }
}

/// After the unstow half: a restow goes on with the stow half.
pub open spec fn after_unstow(v: RunnerView, out: Seq<OutputView>) -> Transition {
    if v.operation == Operation::Restow {
        begin_stow(v, out)
    } else {
        finish(v, out, Ok(()))
    }
}

/// All packages are planned for unstowing: report them (dry run) or execute
/// all the actions at once.
pub open spec fn end_unstow_planning(v: RunnerView, out: Seq<OutputView>) -> Transition {
    if v.dry_run {
        after_unstow(RunnerView { pending: Seq::empty(), ..v }, out + dry_run_lines(v.pending))
    } else {
        (
            RunnerView {
                phase: Phase::Executing(Stage::Unstow),
                pending: Seq::empty(),
                unstowed: unstowed_links(v.pending),
                ..v
            },
            out,
            CommandView::Execute(v.pending),
        )
    }
}

/// Starts the unstow half: all packages are planned before anything runs.
pub open spec fn begin_unstow(v: RunnerView) -> Transition {
    let v2 = RunnerView { next: 0, pending: Seq::empty(), ..v };
    if v.packages.len() == 0 {
        end_unstow_planning(v2, Seq::empty())
    } else {
        (
            RunnerView { phase: Phase::Planning(Stage::Unstow), ..v2 },
            Seq::empty(),
            CommandView::Scan(v.packages[0]),
        )
    }
}

/// The abstract value of a planning result.
pub open spec fn outcome_view(r: Result<Vec<Action>, StowError>) -> Result<
    Seq<ActionView>,
    StowErrorView,
> {
    match r {
        Ok(a) => Ok(a.deep_view()),
        Err(e) => Err(e.deep_view()),
    }
}

/// What planning the scanned package gives: its actions, or the error that
/// stopped the plan.
pub open spec fn outcome_of(scan: PackageScan, p: Plan) -> Result<Seq<ActionView>, StowErrorView> {
    if !scan.found {
        Err(StowErrorView::PackageNotFound(scan.name@))
    } else {
        match p.failure {
            Some((path, source)) => Err(StowErrorView::Io { path, source }),
            None => Ok(p.actions),
        }
    }
}

/// A package's unstow plan is in: add it to the pending actions, then scan
/// the next package or end the planning. An error ends the run.
pub open spec fn unstow_planned(v: RunnerView, r: Result<Seq<ActionView>, StowErrorView>) -> Transition {
    match r {
        Err(e) => finish(v, Seq::empty(), Err(e)),
        Ok(actions) => {
            let out = planned_lines(v, actions);
            let v2 = RunnerView { pending: v.pending + actions, next: v.next + 1, ..v };
            if v2.next < v.packages.len() {
                (v2, out, CommandView::Scan(v.packages[v2.next]))
            } else {
                end_unstow_planning(v2, out)
            }
        },
    }
}

/// A package's stow plan is in, with the conflicts `found` while planning
/// it. In a dry run, plans and conflicts of all packages are collected and
/// reported at the end; otherwise each package's conflicts stop the run
/// before any of its actions run. An error ends the run.
pub open spec fn stow_planned(
    v: RunnerView,
    r: Result<Seq<ActionView>, StowErrorView>,
    found: Seq<ConflictView>,
) -> Transition {
    if v.dry_run {
        let conflicts = v.conflicts + found;
        match r {
            Err(e) => finish(RunnerView { conflicts, ..v }, Seq::empty(), Err(e)),
            Ok(actions) => {
                let v2 = RunnerView {
                    pending: v.pending + actions,
                    conflicts,
                    next: v.next + 1,
                    ..v
                };
                if v2.next < v.packages.len() {
                    (v2, Seq::empty(), CommandView::Scan(v.packages[v2.next]))
                } else if conflicts.len() != 0 {
                    finish(
                        RunnerView { conflicts: Seq::empty(), ..v2 },
                        Seq::empty(),
                        Err(StowErrorView::Conflicts(conflicts)),
                    )
                } else {
                    finish(
                        RunnerView { pending: Seq::empty(), ..v2 },
                        dry_run_lines(v2.pending),
                        Ok(()),
                    )
                }
            },
        }
    } else {
        match r {
            Err(e) => finish(v, Seq::empty(), Err(e)),
            Ok(actions) => {
                let out = planned_lines(v, actions);
                if found.len() != 0 {
                    finish(v, out, Err(StowErrorView::Conflicts(found)))
                } else {
                    (
                        RunnerView { phase: Phase::Executing(Stage::Stow), ..v },
                        out,
                        CommandView::Execute(actions),
                    )
                }
            },
        }
    }
}

/// The scan of a package to unstow is in.
pub open spec fn unstow_scanned(v: RunnerView, scan: PackageScan, pats: Patterns) -> Transition {
    unstow_planned(v, outcome_of(scan, unstow_package_plan(scan, pats)))
}

/// The scan of a package to stow is in.
pub open spec fn stow_scanned(v: RunnerView, scan: PackageScan, pats: Patterns) -> Transition {
    let p = stow_package_plan(scan, pats, v.adopt);
    stow_planned(
        v,
        outcome_of(scan, p),
        if scan.found {
            p.conflicts
        } else {
            Seq::empty()
        },
    )
}

/// Executed or cleaned up with result `r`.
pub open spec fn completed(v: RunnerView, r: Result<(), StowErrorView>) -> Transition {
    match r {
        Err(e) => finish(v, Seq::empty(), Err(e)),
        Ok(()) => match v.phase {
            Phase::Executing(Stage::Unstow) => (
                RunnerView { phase: Phase::Cleaning, unstowed: Seq::empty(), ..v },
                Seq::empty(),
                CommandView::Cleanup(v.unstowed),
            ),
            Phase::Cleaning => after_unstow(v, Seq::empty()),
            _ => {
                let v2 = RunnerView { next: v.next + 1, ..v };
                if v2.next < v.packages.len() {
                    (
                        RunnerView { phase: Phase::Planning(Stage::Stow), ..v2 },
                        Seq::empty(),
                        CommandView::Scan(v.packages[v2.next]),
                    )
                } else {
                    finish(v2, Seq::empty(), Ok(()))
                }
            },
        },
    }
}

/// Whether the runner is waiting for this kind of event.
pub open spec fn accepts(phase: Phase, e: Event) -> bool {
    match e {
        Event::Start => phase == Phase::Idle,
        Event::Scanned(_) => phase is Planning,
        Event::Completed(_) => phase is Executing || phase == Phase::Cleaning,
    }
}

/// The transition of a run on an event it accepts.
pub open spec fn transition(v: RunnerView, e: Event, pats: Patterns) -> Transition {
    match e {
        Event::Start => if v.operation == Operation::Stow {
            begin_stow(v, Seq::empty())
        } else {
            begin_unstow(v)
        },
        Event::Scanned(scan) => if v.phase == Phase::Planning(Stage::Unstow) {
            unstow_scanned(v, scan, pats)
        } else {
            stow_scanned(v, scan, pats)
        },
        Event::Completed(Ok(())) => completed(v, Ok(())),
        Event::Completed(Err(err)) => completed(v, Err(err.deep_view())),
    }
}

/// A dry run never waits on execution or cleanup.
pub open spec fn dry_run_consistent(v: RunnerView) -> bool {
    v.dry_run ==> !(v.phase is Executing) && v.phase != Phase::Cleaning
}

/// A dry run changes nothing: from any state of a dry run (as every run
/// starts, idle), no event leads to executing actions or cleaning up, and the
/// run stays a dry run.
pub proof fn dry_run_changes_nothing(v: RunnerView, e: Event, pats: Patterns)
    requires
        v.dry_run,
        dry_run_consistent(v),
        accepts(v.phase, e),
    ensures
        !(transition(v, e, pats).2 is Execute),
        !(transition(v, e, pats).2 is Cleanup),
        transition(v, e, pats).0.dry_run,
        dry_run_consistent(transition(v, e, pats).0),
{
}

/// Conflicts stop the run before anything is changed: when a package's stow
/// plan (outside a dry run) has conflicts, the run ends with those conflicts
/// and none of the package's actions is executed.
pub proof fn conflicts_stop_the_stow(v: RunnerView, scan: PackageScan, pats: Patterns)
    requires
        v.phase == Phase::Planning(Stage::Stow),
        !v.dry_run,
        scan.found,
        stow_package_plan(scan, pats, v.adopt).failure is None,
        stow_package_plan(scan, pats, v.adopt).conflicts.len() != 0,
    ensures
        transition(v, Event::Scanned(scan), pats).2 == CommandView::Finish(
            Err(StowErrorView::Conflicts(stow_package_plan(scan, pats, v.adopt).conflicts)),
        ),
        transition(v, Event::Scanned(scan), pats).0.phase == Phase::Done,
{
}

/// A failure ends the run with that failure.
pub proof fn failures_end_the_run(v: RunnerView, err: StowError, pats: Patterns)
    requires
        accepts(v.phase, Event::Completed(Err(err))),
    ensures
        transition(v, Event::Completed(Err(err)), pats).2 == CommandView::Finish(
            Err(err.deep_view()),
        ),
        transition(v, Event::Completed(Err(err)), pats).0.phase == Phase::Done,
{
}

/// Restowing is unstowing, then stowing: a restow starts by planning the
/// unstow of the first package, and once the unstow is cleaned up it goes on
/// with the stow of the first package; a plain unstow ends there.
pub proof fn restow_unstows_then_stows(v: RunnerView, pats: Patterns)
    requires
        v.packages.len() > 0,
    ensures
        v.phase == Phase::Idle && v.operation == Operation::Restow ==> {
            &&& transition(v, Event::Start, pats).0.phase == Phase::Planning(Stage::Unstow)
            &&& transition(v, Event::Start, pats).2 == CommandView::Scan(v.packages[0])
        },
        v.phase == Phase::Cleaning && v.operation == Operation::Restow ==> {
            &&& transition(v, Event::Completed(Ok(())), pats).0.phase == Phase::Planning(
                Stage::Stow,
            )
            &&& transition(v, Event::Completed(Ok(())), pats).2 == CommandView::Scan(v.packages[0])
        },
        v.phase == Phase::Cleaning && v.operation == Operation::Unstow ==> transition(
            v,
            Event::Completed(Ok(())),
            pats,
        ).2 == CommandView::Finish(Ok(())),
{
}

/// The cleanup after an unstow looks only where links were removed: once
/// the last package's unstow plan is in (outside a dry run), all planned
/// actions are executed, and then the cleanup is asked for exactly the links
/// those actions removed.
pub proof fn cleanup_follows_the_unstowed_links(v: RunnerView, scan: PackageScan, pats: Patterns)
    requires
        v.phase == Phase::Planning(Stage::Unstow),
        !v.dry_run,
        v.next + 1 == v.packages.len(),
        scan.found,
        unstow_package_plan(scan, pats).failure is None,
    ensures
        transition(v, Event::Scanned(scan), pats).2 == CommandView::Execute(
            v.pending + unstow_package_plan(scan, pats).actions,
        ),
        transition(
            transition(v, Event::Scanned(scan), pats).0,
            Event::Completed(Ok(())),
            pats,
        ).2 == CommandView::Cleanup(unstowed_links(v.pending + unstow_package_plan(scan, pats).actions)),
{
}

/// The state `v` of a run, as a run of `op`.
pub open spec fn with_op(v: RunnerView, op: Operation) -> RunnerView {
    RunnerView { operation: op, ..v }
}

/// Two transitions that differ at most in the operation of the new state.
pub open spec fn same_but_op(t: Transition, u: Transition) -> bool {
    &&& t.0 == with_op(u.0, t.0.operation)
    &&& t.1 == u.1
    &&& t.2 == u.2
}

/// A restow is an unstow run followed, when that succeeds, by a stow run:
/// in its unstow half a restow takes the very steps of an unstow run, except
/// that where the unstow run would finish successfully (with its last lines)
/// the restow writes those lines and starts the stow half as a stow run
/// starts; in its stow half it takes the very steps of a stow run.
pub proof fn restow_is_unstow_then_stow(v: RunnerView, e: Event, pats: Patterns)
    requires
        v.operation == Operation::Restow,
        accepts(v.phase, e),
    ensures
        v.phase != Phase::Planning(Stage::Stow) && v.phase != Phase::Executing(Stage::Stow) ==> {
            let u = transition(with_op(v, Operation::Unstow), e, pats);
            if u.2 == CommandView::Finish(Ok(())) {
                transition(v, e, pats) == begin_stow(with_op(u.0, Operation::Restow), u.1)
            } else {
                same_but_op(transition(v, e, pats), u)
            }
        },
        v.phase == Phase::Planning(Stage::Stow) || v.phase == Phase::Executing(Stage::Stow)
            ==> same_but_op(transition(v, e, pats), transition(with_op(v, Operation::Stow), e, pats)),
{
}

/// What a run does on a sequence of events: the state it ends in, and the
/// lines written and the command given at each event.
pub struct RunTrace {
    pub state: RunnerView,
    pub outputs: Seq<Seq<OutputView>>,
    pub commands: Seq<CommandView>,
}

/// The run from state `v` on the events `es`, one transition per event.
pub open spec fn run_events(v: RunnerView, es: Seq<Event>, pats: Patterns) -> RunTrace
    decreases es.len(),
{
    if es.len() == 0 {
        RunTrace { state: v, outputs: Seq::empty(), commands: Seq::empty() }
    } else {
        let t = transition(v, es[0], pats);
        let r = run_events(t.0, es.drop_first(), pats);
        RunTrace { state: r.state, outputs: seq![t.1] + r.outputs, commands: seq![t.2] + r.commands }
    }
}

/// Whether the run from `v` accepts each of the events `es` in turn.
pub open spec fn run_accepts(v: RunnerView, es: Seq<Event>, pats: Patterns) -> bool
    decreases es.len(),
{
    es.len() == 0 || (accepts(v.phase, es[0]) && run_accepts(
        transition(v, es[0], pats).0,
        es.drop_first(),
        pats,
    ))
}

/// Whether `v` is the state of a run not yet started.
pub open spec fn fresh(v: RunnerView) -> bool {
    &&& v.phase == Phase::Idle
    &&& v.next == 0
    &&& v.pending == Seq::<ActionView>::empty()
    &&& v.conflicts == Seq::<ConflictView>::empty()
    &&& v.unstowed == Seq::<PathView>::empty()
}

/// Whether the phase belongs to the stow half of a run.
pub open spec fn stow_phase(p: Phase) -> bool {
    p == Phase::Planning(Stage::Stow) || p == Phase::Executing(Stage::Stow)
}

proof fn lemma_run_len(v: RunnerView, es: Seq<Event>, pats: Patterns)
    ensures
        run_events(v, es, pats).commands.len() == es.len(),
        run_events(v, es, pats).outputs.len() == es.len(),
    decreases es.len(),
{
    if es.len() > 0 {
        lemma_run_len(transition(v, es[0], pats).0, es.drop_first(), pats);
    }
}

proof fn lemma_run_concat(v: RunnerView, a: Seq<Event>, b: Seq<Event>, pats: Patterns)
    ensures
        ({
            let ra = run_events(v, a, pats);
            let rb = run_events(ra.state, b, pats);
            &&& run_events(v, a + b, pats) == RunTrace {
                state: rb.state,
                outputs: ra.outputs + rb.outputs,
                commands: ra.commands + rb.commands,
            }
            &&& run_accepts(v, a + b, pats) == (run_accepts(v, a, pats) && run_accepts(
                ra.state,
                b,
                pats,
            ))
        }),
    decreases a.len(),
{
    if a.len() == 0 {
        assert(a + b =~= b);
        let rb = run_events(v, b, pats);
        assert(Seq::<Seq<OutputView>>::empty() + rb.outputs =~= rb.outputs);
        assert(Seq::<CommandView>::empty() + rb.commands =~= rb.commands);
    } else {
        let t = transition(v, a[0], pats);
        assert((a + b)[0] == a[0]);
        assert((a + b).drop_first() =~= a.drop_first() + b);
        lemma_run_concat(t.0, a.drop_first(), b, pats);
        let ra = run_events(t.0, a.drop_first(), pats);
        let rb = run_events(ra.state, b, pats);
        assert(seq![t.1] + (ra.outputs + rb.outputs) =~= (seq![t.1] + ra.outputs) + rb.outputs);
        assert(seq![t.2] + (ra.commands + rb.commands) =~= (seq![t.2] + ra.commands) + rb.commands);
    }
}

/// The unstow half: while the unstow run does not finish successfully, a
/// restow takes its very steps.
proof fn lemma_unstow_half(v: RunnerView, es: Seq<Event>, pats: Patterns)
    requires
        v.operation == Operation::Restow,
        !stow_phase(v.phase),
        run_accepts(with_op(v, Operation::Unstow), es, pats),
        forall|i: int|
            0 <= i < es.len() ==> #[trigger] run_events(
                with_op(v, Operation::Unstow),
                es,
                pats,
            ).commands[i] != CommandView::Finish(Ok(())),
    ensures
        run_accepts(v, es, pats),
        run_events(v, es, pats).outputs == run_events(with_op(v, Operation::Unstow), es, pats).outputs,
        run_events(v, es, pats).commands == run_events(with_op(v, Operation::Unstow), es, pats).commands,
        run_events(v, es, pats).state == with_op(
            run_events(with_op(v, Operation::Unstow), es, pats).state,
            Operation::Restow,
        ),
        !stow_phase(run_events(v, es, pats).state.phase),
    decreases es.len(),
{
    if es.len() > 0 {
        let u = with_op(v, Operation::Unstow);
        let tu = transition(u, es[0], pats);
        let ru = run_events(u, es, pats);
        assert(ru.commands[0] == tu.2);
        restow_is_unstow_then_stow(v, es[0], pats);
        let tv = transition(v, es[0], pats);
        assert(tu.0.operation == Operation::Unstow);
        assert(with_op(tv.0, Operation::Unstow) == tu.0);
        assert(!stow_phase(tu.0.phase));
        let rest = es.drop_first();
        let r1 = run_events(tu.0, rest, pats);
        lemma_run_len(tu.0, rest, pats);
        assert forall|i: int| 0 <= i < rest.len() implies #[trigger] run_events(
            with_op(tv.0, Operation::Unstow),
            rest,
            pats,
        ).commands[i] != CommandView::Finish(Ok(())) by {
            assert(ru.commands[i + 1] == r1.commands[i]);
        }
        lemma_unstow_half(tv.0, rest, pats);
    }
}

/// The stow half: from a state of the stow half, a restow takes the very
/// steps of a stow run.
proof fn lemma_stow_half(x: RunnerView, es: Seq<Event>, pats: Patterns)
    requires
        x.operation == Operation::Restow,
        stow_phase(x.phase) || x.phase == Phase::Done,
        run_accepts(with_op(x, Operation::Stow), es, pats),
    ensures
        run_accepts(x, es, pats),
        run_events(x, es, pats).outputs == run_events(with_op(x, Operation::Stow), es, pats).outputs,
        run_events(x, es, pats).commands == run_events(with_op(x, Operation::Stow), es, pats).commands,
        run_events(x, es, pats).state == with_op(
            run_events(with_op(x, Operation::Stow), es, pats).state,
            Operation::Restow,
        ),
    decreases es.len(),
{
    if es.len() > 0 {
        let y = with_op(x, Operation::Stow);
        restow_is_unstow_then_stow(x, es[0], pats);
        let tx = transition(x, es[0], pats);
        let ty = transition(y, es[0], pats);
        assert(ty.0.operation == Operation::Stow);
        assert(with_op(tx.0, Operation::Stow) == ty.0);
        assert(stow_phase(ty.0.phase) || ty.0.phase == Phase::Done);
        lemma_stow_half(tx.0, es.drop_first(), pats);
    }
}

/// A run that accepts every event gives no command after a `Finish`.
proof fn lemma_finish_is_last(v: RunnerView, es: Seq<Event>, pats: Patterns)
    requires
        run_accepts(v, es, pats),
    ensures
        forall|i: int|
            0 <= i < es.len() - 1 ==> !(#[trigger] run_events(v, es, pats).commands[i] is Finish),
    decreases es.len(),
{
    if es.len() > 1 {
        let t = transition(v, es[0], pats);
        let rest = es.drop_first();
        lemma_finish_is_last(t.0, rest, pats);
        assert(run_accepts(t.0, rest, pats));
        assert(accepts(t.0.phase, rest[0]));
        assert(!(t.2 is Finish));
        let r = run_events(v, es, pats);
        lemma_run_len(t.0, rest, pats);
        assert forall|i: int| 0 <= i < es.len() - 1 implies !(#[trigger] r.commands[i] is Finish) by {
            if i > 0 {
                assert(r.commands[i] == run_events(t.0, rest, pats).commands[i - 1]);
            }
        }
    }
}

/// A run keeps its operation and settings.
proof fn lemma_run_keeps_settings(v: RunnerView, es: Seq<Event>, pats: Patterns)
    ensures
        ({
            let w = run_events(v, es, pats).state;
            &&& w.operation == v.operation
            &&& w.dry_run == v.dry_run
            &&& w.adopt == v.adopt
            &&& w.verbose == v.verbose
            &&& w.packages == v.packages
        }),
    decreases es.len(),
{
    if es.len() > 0 {
        lemma_run_keeps_settings(transition(v, es[0], pats).0, es.drop_first(), pats);
    }
}

/// A restow run is an unstow run followed, when that succeeds, by a stow
/// run: take a restow that has not started, the events `e1` on which the
/// same run as an unstow ends successfully (on the last of them), and events
/// `e2` such that a stow run given `Start` then `e2` accepts them all. Then
/// the restow accepts `e1` then `e2`, and gives the unstow run's commands but
/// its last (the successful finish), followed by the stow run's commands;
/// it writes the same lines (at the event where the unstow run finished, its
/// last lines and then the stow run's first); and it ends in the stow run's
/// final state.
pub proof fn restow_runs_unstow_then_stow(
    v0: RunnerView,
    e1: Seq<Event>,
    e2: Seq<Event>,
    pats: Patterns,
)
    requires
        v0.operation == Operation::Restow,
        fresh(v0),
        e1.len() > 0,
        run_accepts(with_op(v0, Operation::Unstow), e1, pats),
        run_events(with_op(v0, Operation::Unstow), e1, pats).commands.last() == CommandView::Finish(
            Ok(()),
        ),
        run_accepts(with_op(v0, Operation::Stow), seq![Event::Start] + e2, pats),
    ensures
        ({
            let u = run_events(with_op(v0, Operation::Unstow), e1, pats);
            let s = run_events(with_op(v0, Operation::Stow), seq![Event::Start] + e2, pats);
            let r = run_events(v0, e1 + e2, pats);
            &&& run_accepts(v0, e1 + e2, pats)
            &&& r.commands == u.commands.drop_last() + s.commands
            &&& r.outputs == u.outputs.drop_last() + seq![u.outputs.last() + s.outputs[0]]
                + s.outputs.drop_first()
            &&& r.state == with_op(s.state, Operation::Restow)
        }),
{
    let uv = with_op(v0, Operation::Unstow);
    let w0 = with_op(v0, Operation::Stow);
    let n = e1.len() - 1;
    let e1a = e1.take(n);
    let el = e1[n];
    assert(e1 =~= e1a + seq![el]);
    lemma_run_concat(uv, e1a, seq![el], pats);
    let ua = run_events(uv, e1a, pats);
    let tu = transition(ua.state, el, pats);
    let u = run_events(uv, e1, pats);
    assert(seq![el].drop_first() =~= Seq::<Event>::empty());
    assert(seq![el][0] == el);
    let r0 = run_events(tu.0, Seq::<Event>::empty(), pats);
    assert(r0.commands =~= Seq::<CommandView>::empty());
    assert(r0.outputs =~= Seq::<Seq<OutputView>>::empty());
    assert(run_events(ua.state, seq![el], pats).commands =~= seq![tu.2]);
    assert(run_events(ua.state, seq![el], pats).outputs =~= seq![tu.1]);
    assert(u.commands == ua.commands + seq![tu.2]);
    assert(u.outputs == ua.outputs + seq![tu.1]);
    assert(u.commands.drop_last() =~= ua.commands);
    assert(u.outputs.drop_last() =~= ua.outputs);
    assert(tu.2 == CommandView::Finish(Ok(())));
    // The unstow half.
    lemma_finish_is_last(uv, e1, pats);
    assert forall|i: int| 0 <= i < e1a.len() implies #[trigger] run_events(
        with_op(v0, Operation::Unstow),
        e1a,
        pats,
    ).commands[i] != CommandView::Finish(Ok(())) by {
        assert(u.commands[i] == ua.commands[i]);
    }
    lemma_unstow_half(v0, e1a, pats);
    let ra = run_events(v0, e1a, pats);
    let x = ra.state;
    assert(with_op(x, Operation::Unstow) == ua.state) by {
        lemma_run_keeps_settings(uv, e1a, pats);
    }
    // The turn from the unstow half to the stow half.
    restow_is_unstow_then_stow(x, el, pats);
    let tx = transition(x, el, pats);
    assert(tx == begin_stow(with_op(tu.0, Operation::Restow), tu.1));
    lemma_run_keeps_settings(uv, e1, pats);
    assert(run_events(uv, e1, pats).state == tu.0);
    let ts = transition(w0, Event::Start, pats);
    assert(ts == begin_stow(w0, Seq::empty()));
    assert(tx.0 == with_op(ts.0, Operation::Restow));
    assert(tx.2 == ts.2);
    // The stow half.
    let s = run_events(w0, seq![Event::Start] + e2, pats);
    assert((seq![Event::Start] + e2).drop_first() =~= e2);
    assert((seq![Event::Start] + e2)[0] == Event::Start);
    let rs = run_events(ts.0, e2, pats);
    assert(s.commands == seq![ts.2] + rs.commands);
    assert(s.outputs == seq![ts.1] + rs.outputs);
    lemma_stow_half(tx.0, e2, pats);
    assert(with_op(tx.0, Operation::Stow) == ts.0);
    let rx = run_events(tx.0, e2, pats);
    // Putting the run together.
    lemma_run_concat(v0, e1a, seq![el] + e2, pats);
    assert(e1 + e2 =~= e1a + (seq![el] + e2));
    assert((seq![el] + e2)[0] == el);
    assert((seq![el] + e2).drop_first() =~= e2);
    let r = run_events(v0, e1 + e2, pats);
    assert(r.commands =~= u.commands.drop_last() + s.commands);
    assert(s.outputs.drop_first() =~= rs.outputs);
    assert(ts.1 =~= Seq::<OutputView>::empty());
    assert(tx.1 =~= tu.1 + ts.1);
    assert(u.outputs.last() == tu.1);
    assert(s.outputs[0] == ts.1);
    assert(r.outputs =~= u.outputs.drop_last() + seq![u.outputs.last() + s.outputs[0]]
        + s.outputs.drop_first());
}

/// A restow stops where the unstow stops: while the same run as an unstow
/// has not finished successfully (it may have failed), the restow takes its
/// very steps: the same commands and lines, and the same state but for the
/// operation.
pub proof fn restow_stops_where_unstow_stops(v0: RunnerView, es: Seq<Event>, pats: Patterns)
    requires
        v0.operation == Operation::Restow,
        fresh(v0),
        run_accepts(with_op(v0, Operation::Unstow), es, pats),
        forall|i: int|
            0 <= i < es.len() ==> #[trigger] run_events(
                with_op(v0, Operation::Unstow),
                es,
                pats,
            ).commands[i] != CommandView::Finish(Ok(())),
    ensures
        run_accepts(v0, es, pats),
        run_events(v0, es, pats).commands == run_events(with_op(v0, Operation::Unstow), es, pats).commands,
        run_events(v0, es, pats).outputs == run_events(with_op(v0, Operation::Unstow), es, pats).outputs,
        run_events(v0, es, pats).state == with_op(
            run_events(with_op(v0, Operation::Unstow), es, pats).state,
            Operation::Restow,
        ),
{
    lemma_unstow_half(v0, es, pats);
}

/// The events that hand in the scans, in order.
pub open spec fn scanned(scans: Seq<PackageScan>) -> Seq<Event> {
    scans.map_values(|s: PackageScan| Event::Scanned(s))
}

/// The actions of the stow plans of the scanned packages, in package order.
pub open spec fn stow_actions_of(scans: Seq<PackageScan>, pats: Patterns, adopt: bool) -> Seq<ActionView>
    decreases scans.len(),
{
    if scans.len() == 0 {
        Seq::empty()
    } else {
        stow_package_plan(scans[0], pats, adopt).actions + stow_actions_of(
            scans.drop_first(),
            pats,
            adopt,
        )
    }
}

/// Every scanned package was found and its stow plan has no conflict and no
/// failure.
pub open spec fn plans_clean(scans: Seq<PackageScan>, pats: Patterns, adopt: bool) -> bool {
    forall|i: int|
        0 <= i < scans.len() ==> {
            &&& (#[trigger] scans[i]).found
            &&& stow_package_plan(scans[i], pats, adopt).failure is None
            &&& stow_package_plan(scans[i], pats, adopt).conflicts.len() == 0
        }
}

/// The conflicts of the stow plans of the scanned packages, in package
/// order.
pub open spec fn stow_conflicts_of(scans: Seq<PackageScan>, pats: Patterns, adopt: bool) -> Seq<
    ConflictView,
>
    decreases scans.len(),
{
    if scans.len() == 0 {
        Seq::empty()
    } else {
        stow_package_plan(scans[0], pats, adopt).conflicts + stow_conflicts_of(
            scans.drop_first(),
            pats,
            adopt,
        )
    }
}

/// Every scanned package was found and its stow plan has no failure.
pub open spec fn plans_complete(scans: Seq<PackageScan>, pats: Patterns, adopt: bool) -> bool {
    forall|i: int|
        0 <= i < scans.len() ==> (#[trigger] scans[i]).found && stow_package_plan(
            scans[i],
            pats,
            adopt,
        ).failure is None
}

proof fn lemma_clean_no_conflicts(scans: Seq<PackageScan>, pats: Patterns, adopt: bool)
    requires
        plans_clean(scans, pats, adopt),
    ensures
        plans_complete(scans, pats, adopt),
        stow_conflicts_of(scans, pats, adopt) == Seq::<ConflictView>::empty(),
    decreases scans.len(),
{
    if scans.len() > 0 {
        let rest = scans.drop_first();
        assert forall|i: int| 0 <= i < rest.len() implies {
            &&& (#[trigger] rest[i]).found
            &&& stow_package_plan(rest[i], pats, adopt).failure is None
            &&& stow_package_plan(rest[i], pats, adopt).conflicts.len() == 0
        } by {
            assert(rest[i] == scans[i + 1]);
        }
        lemma_clean_no_conflicts(rest, pats, adopt);
        assert(plans_clean(scans, pats, adopt) ==> stow_package_plan(scans[0], pats, adopt).conflicts.len()
            == 0);
        assert(stow_package_plan(scans[0], pats, adopt).conflicts =~= Seq::<ConflictView>::empty());
        assert(Seq::<ConflictView>::empty() + Seq::<ConflictView>::empty() =~= Seq::<ConflictView>::empty());
    }
}

proof fn lemma_dry_stow(v: RunnerView, scans: Seq<PackageScan>, pats: Patterns)
    requires
        v.phase == Phase::Planning(Stage::Stow),
        v.dry_run,
        0 <= v.next,
        v.next + scans.len() == v.packages.len(),
        scans.len() > 0,
        plans_complete(scans, pats, v.adopt),
    ensures
        run_accepts(v, scanned(scans), pats),
        run_events(v, scanned(scans), pats).commands.len() > 0,
        ({
            let c = v.conflicts + stow_conflicts_of(scans, pats, v.adopt);
            let r = run_events(v, scanned(scans), pats);
            &&& c.len() == 0 ==> r.commands.last() == CommandView::Finish(Ok(()))
                && r.outputs.last() == dry_run_lines(
                v.pending + stow_actions_of(scans, pats, v.adopt),
            )
            &&& c.len() != 0 ==> r.commands.last() == CommandView::Finish(
                Err(StowErrorView::Conflicts(c)),
            ) && r.outputs.last() == Seq::<OutputView>::empty()
        }),
    decreases scans.len(),
{
    let es = scanned(scans);
    let s0 = scans[0];
    assert(plans_complete(scans, pats, v.adopt) ==> s0.found);
    assert(es[0] == Event::Scanned(s0));
    let rest = scans.drop_first();
    assert(es.drop_first() =~= scanned(rest));
    let p = stow_package_plan(s0, pats, v.adopt);
    assert(p.failure is None);
    let t = transition(v, es[0], pats);
    let r1 = run_events(t.0, scanned(rest), pats);
    lemma_run_len(t.0, scanned(rest), pats);
    assert(accepts(v.phase, es[0]));
    if rest.len() == 0 {
        assert(scanned(rest) =~= Seq::<Event>::empty());
        assert(run_accepts(t.0, Seq::<Event>::empty(), pats));
        assert(run_accepts(t.0, es.drop_first(), pats));
        assert(stow_actions_of(rest, pats, v.adopt) =~= Seq::<ActionView>::empty());
        assert(stow_conflicts_of(rest, pats, v.adopt) =~= Seq::<ConflictView>::empty());
        assert(p.actions + Seq::<ActionView>::empty() =~= p.actions);
        assert(p.conflicts + Seq::<ConflictView>::empty() =~= p.conflicts);
    } else {
        assert forall|i: int| 0 <= i < rest.len() implies (#[trigger] rest[i]).found
            && stow_package_plan(rest[i], pats, t.0.adopt).failure is None by {
            assert(rest[i] == scans[i + 1]);
        }
        lemma_dry_stow(t.0, rest, pats);
        assert(run_accepts(t.0, es.drop_first(), pats));
        assert(t.0.pending + stow_actions_of(rest, pats, v.adopt) =~= v.pending + stow_actions_of(
            scans,
            pats,
            v.adopt,
        ));
        assert(t.0.conflicts + stow_conflicts_of(rest, pats, v.adopt) =~= v.conflicts
            + stow_conflicts_of(scans, pats, v.adopt));
        let r = run_events(v, es, pats);
        assert(r.commands == seq![t.2] + r1.commands);
        assert(r.outputs == seq![t.1] + r1.outputs);
    }
}

/// A dry-run stow reports every conflict: a dry run that stows the scanned
/// packages, whose plans meet no failure but some conflict, plans every
/// package and ends with the conflicts of all of them, in package order,
/// and reports no action.
pub proof fn dry_run_stow_reports_every_conflict(
    v0: RunnerView,
    scans: Seq<PackageScan>,
    pats: Patterns,
)
    requires
        fresh(v0),
        v0.operation == Operation::Stow,
        v0.dry_run,
        v0.packages.len() == scans.len(),
        scans.len() > 0,
        plans_complete(scans, pats, v0.adopt),
        stow_conflicts_of(scans, pats, v0.adopt).len() != 0,
    ensures
        ({
            let r = run_events(v0, seq![Event::Start] + scanned(scans), pats);
            &&& run_accepts(v0, seq![Event::Start] + scanned(scans), pats)
            &&& r.commands.last() == CommandView::Finish(
                Err(StowErrorView::Conflicts(stow_conflicts_of(scans, pats, v0.adopt))),
            )
            &&& r.outputs.last() == Seq::<OutputView>::empty()
        }),
{
    let es = seq![Event::Start] + scanned(scans);
    assert(es[0] == Event::Start);
    assert(es.drop_first() =~= scanned(scans));
    let t = transition(v0, Event::Start, pats);
    lemma_dry_stow(t.0, scans, pats);
    let r1 = run_events(t.0, scanned(scans), pats);
    let r = run_events(v0, es, pats);
    assert(r.commands == seq![t.2] + r1.commands);
    assert(r.outputs == seq![t.1] + r1.outputs);
    lemma_run_len(t.0, scanned(scans), pats);
    let c = stow_conflicts_of(scans, pats, v0.adopt);
    assert(Seq::<ConflictView>::empty() + c =~= c);
}

/// A dry-run stow reports every package: a dry run that stows the scanned
/// packages, whose plans meet no conflict and no failure, ends successfully,
/// and its last lines report, on standard output, each action of every
/// package's plan, in package order (the first package's actions first).
pub proof fn dry_run_stow_reports_every_package(
    v0: RunnerView,
    scans: Seq<PackageScan>,
    pats: Patterns,
)
    requires
        fresh(v0),
        v0.operation == Operation::Stow,
        v0.dry_run,
        v0.packages.len() == scans.len(),
        scans.len() > 0,
        plans_clean(scans, pats, v0.adopt),
    ensures
        ({
            let r = run_events(v0, seq![Event::Start] + scanned(scans), pats);
            let all = stow_actions_of(scans, pats, v0.adopt);
            &&& run_accepts(v0, seq![Event::Start] + scanned(scans), pats)
            &&& r.commands.last() == CommandView::Finish(Ok(()))
            &&& r.outputs.last().len() == all.len()
            &&& forall|i: int|
                0 <= i < all.len() ==> #[trigger] r.outputs.last()[i] == (OutputView {
                    to_stderr: false,
                    line: "[dry-run] "@ + action_text(all[i]),
                })
        }),
{
    let es = seq![Event::Start] + scanned(scans);
    assert(es[0] == Event::Start);
    assert(es.drop_first() =~= scanned(scans));
    let t = transition(v0, Event::Start, pats);
    lemma_clean_no_conflicts(scans, pats, v0.adopt);
    lemma_dry_stow(t.0, scans, pats);
    let r1 = run_events(t.0, scanned(scans), pats);
    let r = run_events(v0, es, pats);
    assert(r.commands == seq![t.2] + r1.commands);
    assert(r.outputs == seq![t.1] + r1.outputs);
    lemma_run_len(t.0, scanned(scans), pats);
    let all = stow_actions_of(scans, pats, v0.adopt);
    assert(t.0.conflicts + stow_conflicts_of(scans, pats, v0.adopt) =~= Seq::<ConflictView>::empty());
    assert(Seq::<ActionView>::empty() + all =~= all);
}

/// A package's clean stow plan is executed as it stands: outside a dry run,
/// when the scanned package's stow plan has no conflict and no failure, the
/// run asks to execute exactly that plan's actions, and waits for the
/// outcome.
pub proof fn clean_stow_plans_are_executed(v: RunnerView, scan: PackageScan, pats: Patterns)
    requires
        v.phase == Phase::Planning(Stage::Stow),
        !v.dry_run,
        scan.found,
        stow_package_plan(scan, pats, v.adopt).failure is None,
        stow_package_plan(scan, pats, v.adopt).conflicts.len() == 0,
    ensures
        transition(v, Event::Scanned(scan), pats).2 == CommandView::Execute(
            stow_package_plan(scan, pats, v.adopt).actions,
        ),
        transition(v, Event::Scanned(scan), pats).0.phase == Phase::Executing(Stage::Stow),
{
}

/// The actions of the unstow plans of the scanned packages, in package
/// order.
pub open spec fn unstow_actions_of(scans: Seq<PackageScan>, pats: Patterns) -> Seq<ActionView>
    decreases scans.len(),
{
    if scans.len() == 0 {
        Seq::empty()
    } else {
        unstow_package_plan(scans[0], pats).actions + unstow_actions_of(scans.drop_first(), pats)
    }
}

/// Every scanned package was found and its unstow plan has no failure.
pub open spec fn unstow_plans_clean(scans: Seq<PackageScan>, pats: Patterns) -> bool {
    forall|i: int|
        0 <= i < scans.len() ==> (#[trigger] scans[i]).found && unstow_package_plan(
            scans[i],
            pats,
        ).failure is None
}

proof fn lemma_unstow_all(v: RunnerView, scans: Seq<PackageScan>, pats: Patterns)
    requires
        v.phase == Phase::Planning(Stage::Unstow),
        v.operation == Operation::Unstow,
        0 <= v.next,
        v.next + scans.len() == v.packages.len(),
        scans.len() > 0,
        unstow_plans_clean(scans, pats),
    ensures
        run_accepts(v, scanned(scans), pats),
        run_events(v, scanned(scans), pats).commands.len() > 0,
        !v.dry_run ==> run_events(v, scanned(scans), pats).commands.last() == CommandView::Execute(
            v.pending + unstow_actions_of(scans, pats),
        ),
        v.dry_run ==> run_events(v, scanned(scans), pats).commands.last() == CommandView::Finish(
            Ok(()),
        ),
        v.dry_run ==> run_events(v, scanned(scans), pats).outputs.last() == planned_lines(
            v,
            unstow_package_plan(scans.last(), pats).actions,
        ) + dry_run_lines(v.pending + unstow_actions_of(scans, pats)),
    decreases scans.len(),
{
    let es = scanned(scans);
    let s0 = scans[0];
    assert(unstow_plans_clean(scans, pats) ==> s0.found);
    assert(es[0] == Event::Scanned(s0));
    let rest = scans.drop_first();
    assert(es.drop_first() =~= scanned(rest));
    let p = unstow_package_plan(s0, pats);
    assert(p.failure is None);
    let t = transition(v, es[0], pats);
    let r1 = run_events(t.0, scanned(rest), pats);
    lemma_run_len(t.0, scanned(rest), pats);
    assert(accepts(v.phase, es[0]));
    if rest.len() == 0 {
        assert(scanned(rest) =~= Seq::<Event>::empty());
        assert(run_accepts(t.0, Seq::<Event>::empty(), pats));
        assert(run_accepts(t.0, es.drop_first(), pats));
        assert(unstow_actions_of(rest, pats) =~= Seq::<ActionView>::empty());
        assert(p.actions + Seq::<ActionView>::empty() =~= p.actions);
        assert(scans.last() == s0);
    } else {
        assert forall|i: int| 0 <= i < rest.len() implies (#[trigger] rest[i]).found
            && unstow_package_plan(rest[i], pats).failure is None by {
            assert(rest[i] == scans[i + 1]);
        }
        lemma_unstow_all(t.0, rest, pats);
        assert(run_accepts(t.0, es.drop_first(), pats));
        assert(t.0.pending + unstow_actions_of(rest, pats) =~= v.pending + unstow_actions_of(
            scans,
            pats,
        ));
        assert(rest.last() == scans.last());
        let r = run_events(v, es, pats);
        assert(r.commands == seq![t.2] + r1.commands);
        assert(r.outputs == seq![t.1] + r1.outputs);
    }
}

/// An unstow plans every package before changing anything: an unstow of the
/// scanned packages, whose plans meet no failure, asks after the last scan
/// to execute the actions of every package's plan at once, in package order;
/// a dry run instead ends successfully, its last lines reporting those
/// actions on standard output (after, from verbosity 2, the last package's
/// planned actions).
pub proof fn unstow_plans_every_package_first(
    v0: RunnerView,
    scans: Seq<PackageScan>,
    pats: Patterns,
)
    requires
        fresh(v0),
        v0.operation == Operation::Unstow,
        v0.packages.len() == scans.len(),
        scans.len() > 0,
        unstow_plans_clean(scans, pats),
    ensures
        ({
            let r = run_events(v0, seq![Event::Start] + scanned(scans), pats);
            let all = unstow_actions_of(scans, pats);
            &&& run_accepts(v0, seq![Event::Start] + scanned(scans), pats)
            &&& !v0.dry_run ==> r.commands.last() == CommandView::Execute(all)
            &&& v0.dry_run ==> r.commands.last() == CommandView::Finish(Ok(()))
            &&& v0.dry_run ==> r.outputs.last() == planned_lines(
                v0,
                unstow_package_plan(scans.last(), pats).actions,
            ) + dry_run_lines(all)
        }),
{
    let es = seq![Event::Start] + scanned(scans);
    assert(es[0] == Event::Start);
    assert(es.drop_first() =~= scanned(scans));
    let t = transition(v0, Event::Start, pats);
    lemma_unstow_all(t.0, scans, pats);
    let r1 = run_events(t.0, scanned(scans), pats);
    let r = run_events(v0, es, pats);
    assert(r.commands == seq![t.2] + r1.commands);
    assert(r.outputs == seq![t.1] + r1.outputs);
    lemma_run_len(t.0, scanned(scans), pats);
    let all = unstow_actions_of(scans, pats);
    assert(Seq::<ActionView>::empty() + all =~= all);
}

/// Packages are stowed one after the other: once a package's actions are
/// executed, the next package is scanned (so its plan sees what the previous
/// ones did), and after the last one the run succeeds.
pub proof fn packages_are_stowed_in_turn(v: RunnerView, pats: Patterns)
    requires
        v.phase == Phase::Executing(Stage::Stow),
        0 <= v.next,
    ensures
        v.next + 1 < v.packages.len() ==> {
            &&& transition(v, Event::Completed(Ok(())), pats).0.phase == Phase::Planning(
                Stage::Stow,
            )
            &&& transition(v, Event::Completed(Ok(())), pats).2 == CommandView::Scan(
                v.packages[v.next + 1],
            )
        },
        v.next + 1 >= v.packages.len() ==> transition(v, Event::Completed(Ok(())), pats).2
            == CommandView::Finish(Ok(())),
{
}

/// The lines `prefix` + description of each action, in order.
fn action_lines_of(actions: &Vec<Action>, prefix: &str, to_stderr: bool) -> (r: Vec<Output>)
    ensures
        r.deep_view() == action_lines(actions.deep_view(), prefix@, to_stderr),
{
    let mut r: Vec<Output> = Vec::new();
    let mut i: usize = 0;
    while i < actions.len()
        invariant
            i <= actions.len(),
            r.deep_view() == action_lines(actions.deep_view(), prefix@, to_stderr).take(i as int),
        decreases actions.len() - i,
    {
        let mut line = String::from_str(prefix);
        line.append(actions[i].describe().as_str());
        push_deep(&mut r, Output { to_stderr, line });
        i = i + 1;
        assert(r.deep_view() =~= action_lines(actions.deep_view(), prefix@, to_stderr).take(
            i as int,
        ));
    }
    assert(action_lines(actions.deep_view(), prefix@, to_stderr).take(actions.len() as int)
        =~= action_lines(actions.deep_view(), prefix@, to_stderr));
    r
}

impl Runner {
    #[verifier::type_invariant]
    closed spec fn next_in_range(&self) -> bool {
        &&& self.next <= self.packages.len()
        &&& self.phase is Planning ==> self.next < self.packages.len()
        &&& self.phase == Phase::Executing(Stage::Stow) ==> self.next < self.packages.len()
    }

    /// A run of `config.operation` over `packages`, not yet started.
    pub fn new(config: Config, packages: Vec<String>) -> (r: Runner)
        ensures
            r@ == (RunnerView {
                operation: config.operation,
                dry_run: config.dry_run,
                adopt: config.adopt,
                verbose: config.verbose,
                packages: packages.deep_view(),
                phase: Phase::Idle,
                next: 0,
                pending: Seq::empty(),
                conflicts: Seq::empty(),
                unstowed: Seq::empty(),
            }),
    {
        let r = Runner {
            config,
            packages,
            phase: Phase::Idle,
            next: 0,
            pending: Vec::new(),
            conflicts: ConflictSet::default(),
            unstowed: Vec::new(),
        };
        assert(r.pending.deep_view() =~= Seq::<ActionView>::empty());
        assert(r.unstowed.deep_view() =~= Seq::<PathView>::empty());
        r
    }

    /// Whether the runner is waiting for this kind of event.
    pub fn accepts(&self, e: &Event) -> (b: bool)
        ensures
            b == accepts(self@.phase, *e),
    {
        match e {
            Event::Start => self.phase == Phase::Idle,
            Event::Scanned(_) => match self.phase {
                Phase::Planning(_) => true,
                _ => false,
            },
            Event::Completed(_) => match self.phase {
                Phase::Executing(_) => true,
                Phase::Cleaning => true,
                _ => false,
            },
        }
    }

    /// Whether the run is over.
    pub fn is_done(&self) -> (b: bool)
        ensures
            b == (self@.phase == Phase::Done),
    {
        self.phase == Phase::Done
    }

    fn finish(&mut self, out: Vec<Output>, r: Result<(), StowError>) -> (t: (Vec<Output>, Command))
        ensures
            (final(self)@, t.0.deep_view(), t.1.deep_view()) == finish(
                old(self)@,
                out.deep_view(),
                match r {
                    Ok(()) => Ok(()),
                    Err(e) => Err(e.deep_view()),
                },
            ),
    {
        proof {
            use_type_invariant(&*self);
        }
        self.phase = Phase::Done;
        (out, Command::Finish(r))
    }

    fn begin_stow(&mut self, out: Vec<Output>) -> (t: (Vec<Output>, Command))
        ensures
            (final(self)@, t.0.deep_view(), t.1.deep_view()) == begin_stow(
                old(self)@,
                out.deep_view(),
            ),
    {
        proof {
            use_type_invariant(&*self);
        }
        self.next = 0;
        self.pending = Vec::new();
        self.conflicts = ConflictSet::default();
        self.unstowed = Vec::new();
        assert(self.pending.deep_view() =~= Seq::<ActionView>::empty());
        assert(self.unstowed.deep_view() =~= Seq::<PathView>::empty());
        if self.packages.len() == 0 {
            return self.finish(out, Ok(()));
        }
        self.phase = Phase::Planning(Stage::Stow);
        (out, Command::Scan(self.packages[0].clone()))
    }

    fn after_unstow(&mut self, out: Vec<Output>) -> (t: (Vec<Output>, Command))
        ensures
            (final(self)@, t.0.deep_view(), t.1.deep_view()) == after_unstow(
                old(self)@,
                out.deep_view(),
            ),
    {
        proof {
            use_type_invariant(&*self);
        }
        if self.config.operation == Operation::Restow {
            self.begin_stow(out)
        } else {
            self.finish(out, Ok(()))
        }
    }

    fn end_unstow_planning(&mut self, out: Vec<Output>) -> (t: (Vec<Output>, Command))
        ensures
            (final(self)@, t.0.deep_view(), t.1.deep_view()) == end_unstow_planning(
                old(self)@,
                out.deep_view(),
            ),
    {
        proof {
            use_type_invariant(&*self);
        }
        let mut out = out;
        let ghost v = self@;
        if self.config.dry_run {
            let lines = action_lines_of(&self.pending, "[dry-run] ", false);
            append_deep(&mut out, lines);
            self.pending = Vec::new();
            assert(self.pending.deep_view() =~= Seq::<ActionView>::empty());
            assert(self@ == RunnerView { pending: Seq::empty(), ..v });
            self.after_unstow(out)
        } else {
            self.unstowed = unstowed_links_of(&self.pending);
            let mut actions: Vec<Action> = Vec::new();
            std::mem::swap(&mut actions, &mut self.pending);
            self.phase = Phase::Executing(Stage::Unstow);
            assert(self.pending.deep_view() =~= Seq::<ActionView>::empty());
            (out, Command::Execute(actions))
        }
    }

    fn begin_unstow(&mut self) -> (t: (Vec<Output>, Command))
        ensures
            (final(self)@, t.0.deep_view(), t.1.deep_view()) == begin_unstow(old(self)@),
    {
        proof {
            use_type_invariant(&*self);
        }
        let out: Vec<Output> = Vec::new();
        assert(out.deep_view() =~= Seq::<OutputView>::empty());
        self.phase = Phase::Idle;
        self.next = 0;
        self.pending = Vec::new();
        assert(self.pending.deep_view() =~= Seq::<ActionView>::empty());
        if self.packages.len() == 0 {
            return self.end_unstow_planning(out);
        }
        self.phase = Phase::Planning(Stage::Unstow);
        (out, Command::Scan(self.packages[0].clone()))
    }

    /// Takes the unstow plan of the package being planned.
    pub fn planned_unstow(&mut self, r: Result<Vec<Action>, StowError>) -> (t: (
        Vec<Output>,
        Command,
    ))
        requires
            old(self)@.phase == Phase::Planning(Stage::Unstow),
        ensures
            (final(self)@, t.0.deep_view(), t.1.deep_view()) == unstow_planned(
                old(self)@,
                outcome_view(r),
            ),
    {
        proof {
            use_type_invariant(&*self);
        }
        match r {
            Err(e) => {
                let out: Vec<Output> = Vec::new();
                assert(out.deep_view() =~= Seq::<OutputView>::empty());
                self.finish(out, Err(e))
            },
            Ok(actions) => {
                let out = if self.config.verbose >= 2 {
                    action_lines_of(&actions, "[bestow] planned: ", true)
                } else {
                    let o: Vec<Output> = Vec::new();
                    assert(o.deep_view() =~= Seq::<OutputView>::empty());
                    o
                };
                let mut pending: Vec<Action> = Vec::new();
                std::mem::swap(&mut pending, &mut self.pending);
                append_deep(&mut pending, actions);
                self.pending = pending;
                let n = self.next + 1;
                if n < self.packages.len() {
                    self.next = n;
                    (out, Command::Scan(self.packages[n].clone()))
                } else {
                    let ghost v2 = RunnerView { next: n as int, ..self@ };
                    self.phase = Phase::Cleaning;
                    self.next = n;
                    assert(end_unstow_planning(self@, out.deep_view()) == end_unstow_planning(
                        v2,
                        out.deep_view(),
                    ));
                    self.end_unstow_planning(out)
                }
            },
        }
    }

    /// Takes the stow plan of the package being planned, with the conflicts
    /// found while planning it.
    pub fn planned_stow(&mut self, r: Result<Vec<Action>, StowError>, found: ConflictSet) -> (t: (
        Vec<Output>,
        Command,
    ))
        requires
            old(self)@.phase == Phase::Planning(Stage::Stow),
        ensures
            (final(self)@, t.0.deep_view(), t.1.deep_view()) == stow_planned(
                old(self)@,
                outcome_view(r),
                found.items(),
            ),
    {
        proof {
            use_type_invariant(&*self);
        }
        let empty: Vec<Output> = Vec::new();
        assert(empty.deep_view() =~= Seq::<OutputView>::empty());
        if self.config.dry_run {
            let mut conflicts = ConflictSet::default();
            std::mem::swap(&mut conflicts, &mut self.conflicts);
            conflicts.append(found);
            self.conflicts = conflicts;
            match r {
                Err(e) => self.finish(empty, Err(e)),
                Ok(actions) => {
                    let mut pending: Vec<Action> = Vec::new();
                    std::mem::swap(&mut pending, &mut self.pending);
                    append_deep(&mut pending, actions);
                    self.pending = pending;
                    let n = self.next + 1;
                    if n < self.packages.len() {
                        self.next = n;
                        (empty, Command::Scan(self.packages[n].clone()))
                    } else if !self.conflicts.is_empty() {
                        self.phase = Phase::Done;
                        self.next = n;
                        let mut cs = ConflictSet::default();
                        std::mem::swap(&mut cs, &mut self.conflicts);
                        self.finish(empty, Err(StowError::Conflicts(cs)))
                    } else {
                        self.phase = Phase::Done;
                        self.next = n;
                        let lines = action_lines_of(&self.pending, "[dry-run] ", false);
                        self.pending = Vec::new();
                        assert(self.pending.deep_view() =~= Seq::<ActionView>::empty());
                        self.finish(lines, Ok(()))
                    }
                },
            }
        } else {
            match r {
                Err(e) => self.finish(empty, Err(e)),
                Ok(actions) => {
                    let out = if self.config.verbose >= 2 {
                        action_lines_of(&actions, "[bestow] planned: ", true)
                    } else {
                        empty
                    };
                    if !found.is_empty() {
                        self.finish(out, Err(StowError::Conflicts(found)))
                    } else {
                        self.phase = Phase::Executing(Stage::Stow);
                        (out, Command::Execute(actions))
                    }
                },
            }
        }
    }

    fn completed(&mut self, r: Result<(), StowError>) -> (t: (Vec<Output>, Command))
        requires
            old(self)@.phase is Executing || old(self)@.phase == Phase::Cleaning,
        ensures
            (final(self)@, t.0.deep_view(), t.1.deep_view()) == completed(
                old(self)@,
                match r {
                    Ok(()) => Ok(()),
                    Err(e) => Err(e.deep_view()),
                },
            ),
    {
        proof {
            use_type_invariant(&*self);
        }
        let empty: Vec<Output> = Vec::new();
        assert(empty.deep_view() =~= Seq::<OutputView>::empty());
        match r {
            Err(e) => self.finish(empty, Err(e)),
            Ok(()) => match self.phase {
                Phase::Executing(Stage::Unstow) => {
                    self.phase = Phase::Cleaning;
                    let mut links: Vec<Vec<String>> = Vec::new();
                    std::mem::swap(&mut links, &mut self.unstowed);
                    assert(self.unstowed.deep_view() =~= Seq::<PathView>::empty());
                    (empty, Command::Cleanup(links))
                },
                Phase::Cleaning => self.after_unstow(empty),
                _ => {
                    let n = self.next + 1;
                    if n < self.packages.len() {
                        self.next = n;
                        self.phase = Phase::Planning(Stage::Stow);
                        (empty, Command::Scan(self.packages[n].clone()))
                    } else {
                        self.phase = Phase::Done;
                        self.next = n;
                        (empty, Command::Finish(Ok(())))
                    }
                },
            },
        }
    }

    /// Takes the outcome of the previous command (or the start of the run)
    /// and returns the lines to write out, then the next command.
    pub fn step(&mut self, event: Event, patterns: &Patterns) -> (t: (Vec<Output>, Command))
        requires
            accepts(old(self)@.phase, event),
        ensures
            (final(self)@, t.0.deep_view(), t.1.deep_view()) == transition(
                old(self)@,
                event,
                *patterns,
            ),
    {
        match event {
            Event::Start => {
                if self.config.operation == Operation::Stow {
                    let out: Vec<Output> = Vec::new();
                    assert(out.deep_view() =~= Seq::<OutputView>::empty());
                    self.begin_stow(out)
                } else {
                    self.begin_unstow()
                }
            },
            Event::Scanned(scan) => {
                if self.phase == Phase::Planning(Stage::Unstow) {
                    let r = plan_unstow(scan, &self.config, patterns);
                    self.planned_unstow(r)
                } else {
                    let mut found = ConflictSet::default();
                    let r = plan_stow(scan, &self.config, patterns, &mut found);
                    self.planned_stow(r, found)
                }
            },
            Event::Completed(r) => self.completed(r),
        }
    }
}

} // verus!

