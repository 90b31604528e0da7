//! The execution sequencer: a pure state machine over an execution's items.
//!
//! Planning an execution expands each of its templates; the machine then
//! walks the planned commands one at a time. The caller invokes the command
//! the machine asks for and reports the child's exit status back; the
//! machine decides whether to run the next item or to finish, and with what
//! outcome. Spawning processes, and terminating the surrounding program on a
//! `Terminate` outcome, are the caller's business, so the machine itself can
//! be verified and exercised without running anything.

use vstd::prelude::*;
use crate::config::Execution;
use crate::expansions::Expansion;
use crate::expansions::table_views;
use crate::substitution::expand_spec;
use crate::tokenizer::str_views;
use crate::EpithetError;

verus! {

/// How a run reads its items' exit statuses.
#[derive(Clone, Copy, Debug, PartialEq, Eq, Structural)]
pub enum RunMode {
    /// Run every item in order; the first failure ends the run with that
    /// item's exit code. A single command is a chain of one.
    StopOnFailure,
    /// Run items in order until one succeeds; when every item fails, the
    /// last item's exit code ends the run.
    StopOnSuccess,
}

/// How a finished run ends: overall success, or termination of the whole
/// program with an exit code.
#[derive(Clone, Copy, Debug, PartialEq, Eq, Structural)]
pub enum Outcome {
    Success,
    Terminate(i32),
}

/// Whether a child's exit status counts as success: it exited normally with
/// code zero.
pub open spec fn is_success(status: Option<i32>) -> bool {
    status == Some(0i32)
}

/// The exit code taken from a child's status: its own code when it exited
/// normally, `1` when the status carries none (killed by a signal).
pub open spec fn exit_code_of(status: Option<i32>) -> i32 {
    match status {
        Some(c) => c,
        None => 1,
    }
}

/// The sequencer's transition: at item `next` of `len`, on exit `status`,
/// the following item index and the outcome, if the run is over.
pub open spec fn machine_next(mode: RunMode, len: int, next: int, status: Option<i32>) -> (
    int,
    Option<Outcome>,
) {
    match mode {
        RunMode::StopOnFailure => if !is_success(status) {
            (next, Some(Outcome::Terminate(exit_code_of(status))))
        } else if next + 1 < len {
            (next + 1, None)
        } else {
            (next, Some(Outcome::Success))
        },
        RunMode::StopOnSuccess => if is_success(status) {
            (next, Some(Outcome::Success))
        } else if next + 1 < len {
            (next + 1, None)
        } else {
            (next, Some(Outcome::Terminate(exit_code_of(status))))
        },
    }
}

/// The machine state after a fresh run of `len` items is fed the exit
/// statuses of `sts`, in order: the item index and the outcome. `feed`
/// folds `machine_next`, ignoring statuses once an outcome is set, and
/// `report` takes exactly one `machine_next` transition, so `feed`
/// describes what any sequence of `report` calls leaves behind.
pub open spec fn feed(mode: RunMode, len: int, sts: Seq<Option<i32>>) -> (int, Option<Outcome>)
    decreases sts.len(),
{
    if len <= 0 {
        (0, Some(Outcome::Success))
    } else if sts.len() == 0 {
        (0, None)
    } else {
        let prior = feed(mode, len, sts.drop_last());
        if prior.1 is Some {
            prior
        } else {
            machine_next(mode, len, prior.0, sts.last())
        }
    }
}

/// While every status fed so far succeeded and items remain, a
/// stop-on-failure run is still going, standing at the item after them.
proof fn lemma_successes_keep_running(len: int, sts: Seq<Option<i32>>)
    requires
        0 <= sts.len() < len,
        forall|i: int| 0 <= i < sts.len() ==> is_success(#[trigger] sts[i]),
    ensures
        feed(RunMode::StopOnFailure, len, sts) == (sts.len() as int, None::<Outcome>),
    decreases sts.len(),
{
    if sts.len() > 0 {
        assert(forall|i: int|
            0 <= i < sts.drop_last().len() ==> #[trigger] sts.drop_last()[i] == sts[i]);
        lemma_successes_keep_running(len, sts.drop_last());
        assert(is_success(sts[sts.len() - 1]));
    }
}

/// While every status fed so far failed and items remain, a stop-on-success
/// run is still going, standing at the item after them.
proof fn lemma_failures_keep_running(len: int, sts: Seq<Option<i32>>)
    requires
        0 <= sts.len() < len,
        forall|i: int| 0 <= i < sts.len() ==> !is_success(#[trigger] sts[i]),
    ensures
        feed(RunMode::StopOnSuccess, len, sts) == (sts.len() as int, None::<Outcome>),
    decreases sts.len(),
{
    if sts.len() > 0 {
        assert(forall|i: int|
            0 <= i < sts.drop_last().len() ==> #[trigger] sts.drop_last()[i] == sts[i]);
        lemma_failures_keep_running(len, sts.drop_last());
        assert(!is_success(sts[sts.len() - 1]));
    }
}

/// A stop-on-failure chain ends at its first failing item, with that item's
/// exit code as the final outcome; the outcome is set after exactly `k + 1`
/// statuses, so the items after the failing one are never reached.
pub proof fn lemma_stop_on_failure_first_failure(len: int, sts: Seq<Option<i32>>, k: int)
    requires
        0 <= k < len,
        sts.len() == k + 1,
        forall|i: int| 0 <= i < k ==> is_success(#[trigger] sts[i]),
        !is_success(sts[k]),
    ensures
        feed(RunMode::StopOnFailure, len, sts) == (
            k,
            Some(Outcome::Terminate(exit_code_of(sts[k]))),
        ),
{
    assert(forall|i: int|
        0 <= i < sts.drop_last().len() ==> #[trigger] sts.drop_last()[i] == sts[i]);
    lemma_successes_keep_running(len, sts.drop_last());
    assert(sts.last() == sts[k]);
}

/// A stop-on-failure chain all of whose items succeed ends in success,
/// standing at its last item.
pub proof fn lemma_stop_on_failure_all_success(len: int, sts: Seq<Option<i32>>)
    requires
        0 < len,
        sts.len() == len,
        forall|i: int| 0 <= i < len ==> is_success(#[trigger] sts[i]),
    ensures
        feed(RunMode::StopOnFailure, len, sts) == (len - 1, Some(Outcome::Success)),
{
    assert(forall|i: int|
        0 <= i < sts.drop_last().len() ==> #[trigger] sts.drop_last()[i] == sts[i]);
    lemma_successes_keep_running(len, sts.drop_last());
    assert(is_success(sts.last()));
}

/// A stop-on-success chain ends, successfully, at its first succeeding
/// item; the outcome is set after exactly `k + 1` statuses, so the items
/// after the succeeding one are never reached.
pub proof fn lemma_stop_on_success_first_success(len: int, sts: Seq<Option<i32>>, k: int)
    requires
        0 <= k < len,
        sts.len() == k + 1,
        forall|i: int| 0 <= i < k ==> !is_success(#[trigger] sts[i]),
        is_success(sts[k]),
    ensures
        feed(RunMode::StopOnSuccess, len, sts) == (k, Some(Outcome::Success)),
{
    assert(forall|i: int|
        0 <= i < sts.drop_last().len() ==> #[trigger] sts.drop_last()[i] == sts[i]);
    lemma_failures_keep_running(len, sts.drop_last());
    assert(sts.last() == sts[k]);
}

/// A stop-on-success chain all of whose items fail ends with the last
/// item's exit code as the final outcome.
pub proof fn lemma_stop_on_success_all_fail(len: int, sts: Seq<Option<i32>>)
    requires
        0 < len,
        sts.len() == len,
        forall|i: int| 0 <= i < len ==> !is_success(#[trigger] sts[i]),
    ensures
        feed(RunMode::StopOnSuccess, len, sts) == (
            len - 1,
            Some(Outcome::Terminate(exit_code_of(sts[len - 1]))),
        ),
{
    assert(forall|i: int|
        0 <= i < sts.drop_last().len() ==> #[trigger] sts.drop_last()[i] == sts[i]);
    lemma_failures_keep_running(len, sts.drop_last());
    assert(sts.last() == sts[len - 1]);
}

/// The token-list views of a list of planned commands.
pub open spec fn commands_views(cs: Seq<Vec<String>>) -> Seq<Seq<Seq<char>>> {
    cs.map_values(|c: Vec<String>| str_views(c@))
}

/// Each template of `items` expanded independently against the same
/// arguments and table.
pub open spec fn expand_each(
    items: Seq<String>,
    args: Seq<Seq<char>>,
    t: Seq<(Seq<char>, Seq<char>)>,
) -> Seq<Seq<Seq<char>>>
    decreases items.len(),
{
    if items.len() == 0 {
        seq![]
    } else {
        expand_each(items.drop_last(), args, t).push(expand_spec(items.last()@, args, t))
    }
}

/// The commands an execution plans: one per template, each independently
/// expanded. A pipeline plans nothing; it is rejected before planning.
pub open spec fn planned_commands(
    e: Execution,
    args: Seq<Seq<char>>,
    t: Seq<(Seq<char>, Seq<char>)>,
) -> Seq<Seq<Seq<char>>> {
    match e {
        Execution::Command(c) => seq![expand_spec(c@, args, t)],
        Execution::And(items) => expand_each(items@, args, t),
        Execution::Or(items) => expand_each(items@, args, t),
        Execution::Pipeline(items) => arbitrary(),
    }
}

/// The mode an execution runs under.
pub open spec fn mode_of(e: Execution) -> RunMode {
    match e {
        Execution::Or(items) => RunMode::StopOnSuccess,
        _ => RunMode::StopOnFailure,
    }
}

/// A planned execution in progress: the commands to invoke, the index of the
/// one to invoke next, and the outcome once the run is over.
pub struct ExecutionRun {
    pub mode: RunMode,
    pub commands: Vec<Vec<String>>,
    pub next: usize,
    pub outcome: Option<Outcome>,
}

impl ExecutionRun {
    /// While the run is not finished, `next` points at a planned command.
    pub open spec fn wf(&self) -> bool {
        self.outcome is None ==> self.next < self.commands@.len()
    }

    /// The command to invoke next; `None` exactly when the run is finished.
    pub fn next_command(&self) -> (r: Option<&Vec<String>>)
        requires
            self.wf(),
        ensures
            match r {
                Some(cmd) => self.outcome is None && cmd@ == self.commands@[self.next as int]@,
                None => self.outcome is Some,
            },
    {
        match self.outcome {
            Some(_) => None,
            None => Some(&self.commands[self.next]),
        }
    }

    /// Records the exit status of the command just invoked and takes one
    /// transition of the machine.
    pub fn report(&mut self, status: Option<i32>)
        requires
            old(self).wf(),
            old(self).outcome is None,
        ensures
            final(self).wf(),
            final(self).mode == old(self).mode,
            final(self).commands == old(self).commands,
            (final(self).next as int, final(self).outcome) == machine_next(
                old(self).mode,
                old(self).commands@.len() as int,
                old(self).next as int,
                status,
            ),
    {
        proof {
            assert(self.next < self.commands@.len());
        }
        let success = match status {
            Some(c) => c == 0,
            None => false,
        };
        let code: i32 = match status {
            Some(c) => c,
            None => 1,
        };
        let len = self.commands.len();
        let at_last = self.next >= len - 1;
        match self.mode {
            RunMode::StopOnFailure => {
                if !success {
                    self.outcome = Some(Outcome::Terminate(code));
                } else if at_last {
                    self.outcome = Some(Outcome::Success);
                } else {
                    self.next = self.next + 1;
                }
            },
            RunMode::StopOnSuccess => {
                if success {
                    self.outcome = Some(Outcome::Success);
                } else if at_last {
                    self.outcome = Some(Outcome::Terminate(code));
                } else {
                    self.next = self.next + 1;
                }
            },
        }
    }
}

impl Execution {
    /// Plans this execution against the caller's arguments and the merged
    /// expansion table: expands every template and sets the machine at its
    /// first item. A pipeline is rejected rather than given guessed
    /// semantics; nothing else fails.
    pub fn prepare(&self, args: &[String], expansions: &[Expansion]) -> (r: Result<
        ExecutionRun,
        EpithetError,
    >)
        ensures
            match r {
                Ok(run) => {
                    &&& !(self matches Execution::Pipeline(_))
                    &&& run.wf()
                    &&& run.mode == mode_of(*self)
                    &&& commands_views(run.commands@) == planned_commands(
                        *self,
                        str_views(args@),
                        table_views(expansions@),
                    )
                    &&& run.next == 0
                    &&& run.outcome == (if planned_commands(
                        *self,
                        str_views(args@),
                        table_views(expansions@),
                    ).len() == 0 {
                        Some(Outcome::Success)
                    } else {
                        None::<Outcome>
                    })
                },
                Err(e) => self matches Execution::Pipeline(_)
                    && e == EpithetError::PipelineUnsupported,
            },
    {
        let ghost a = str_views(args@);
        let ghost t = table_views(expansions@);
        match self {
            Execution::Command(c) => {
                let toks = self.get_arguments(c.as_str(), args, expansions);
                let mut commands: Vec<Vec<String>> = Vec::new();
                commands.push(toks);
                proof {
                    assert(commands_views(commands@) =~= seq![expand_spec(c@, a, t)]);
                }
                Ok(
                    ExecutionRun {
                        mode: RunMode::StopOnFailure,
                        commands,
                        next: 0,
                        outcome: None,
                    },
                )
            },
            Execution::And(items) => {
                let commands = self.expand_items(items, args, expansions);
                let finished = commands.len() == 0;
                Ok(
                    ExecutionRun {
                        mode: RunMode::StopOnFailure,
                        commands,
                        next: 0,
                        outcome: if finished {
                            Some(Outcome::Success)
                        } else {
                            None
                        },
                    },
                )
            },
            Execution::Or(items) => {
                let commands = self.expand_items(items, args, expansions);
                let finished = commands.len() == 0;
                Ok(
                    ExecutionRun {
                        mode: RunMode::StopOnSuccess,
                        commands,
                        next: 0,
                        outcome: if finished {
                            Some(Outcome::Success)
                        } else {
                            None
                        },
                    },
                )
            },
            Execution::Pipeline(_) => Err(EpithetError::PipelineUnsupported),
        }
    }

    /// Expands each template of a chain, in order.
    fn expand_items(&self, items: &Vec<String>, args: &[String], expansions: &[Expansion]) -> (r:
        Vec<Vec<String>>)
        ensures
            commands_views(r@) == expand_each(
                items@,
                str_views(args@),
                table_views(expansions@),
            ),
    {
        let ghost a = str_views(args@);
        let ghost t = table_views(expansions@);
        let mut commands: Vec<Vec<String>> = Vec::new();
        let mut i: usize = 0;
        proof {
            assert(commands_views(commands@) =~= expand_each(items@.take(0), a, t));
        }
        while i < items.len()
            invariant
                i <= items@.len(),
                a == str_views(args@),
                t == table_views(expansions@),
                commands_views(commands@) == expand_each(items@.take(i as int), a, t),
            decreases items@.len() - i,
        {
            let ghost prev = commands@;
            let toks = self.get_arguments(items[i].as_str(), args, expansions);
            commands.push(toks);
            proof {
                assert(items@.take(i + 1).drop_last() =~= items@.take(i as int));
                assert(items@.take(i + 1).last() == items@[i as int]);
                assert(commands_views(commands@) =~= commands_views(prev).push(
                    expand_spec(items@[i as int]@, a, t),
                ));
            }
            i = i + 1;
        }
        proof {
            assert(items@.take(items@.len() as int) =~= items@);
        }
        commands
    }
}

} // verus!
