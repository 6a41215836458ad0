use vstd::prelude::*;

use crate::text::chars_of;

verus! {

/// A run of the documentation tool.
#[derive(Clone, Copy, Debug, PartialEq, Eq, Structural)]
pub enum Task {
    /// Check that the book's code samples compile.
    Test,
    /// Render the book.
    Build,
}

/// What the command line asks for.
#[derive(Clone, Debug)]
pub enum Command {
    /// Run these tasks, in order.
    Run(Vec<Task>),
    /// Print the usage text.
    Usage,
}

/// The next step of a run whose files are staged.
#[derive(Clone, Copy, Debug, PartialEq, Eq, Structural)]
pub enum Action {
    /// Start the documentation tool for the given job.
    Start(Task),
    /// Restore the staged files; `succeeded` tells whether every task succeeded.
    Release { succeeded: bool },
}

/// The tasks that an optional subcommand asks for: none runs a test and then
/// a build, `render` a build, `test` a test; any other word asks for the
/// usage text.
pub open spec fn tasks_for(arg: Option<Seq<char>>) -> Option<Seq<Task>> {
    match arg {
        None => Some(seq![Task::Test, Task::Build]),
        Some(a) => if a == "render"@ {
            Some(seq![Task::Build])
        } else if a == "test"@ {
            Some(seq![Task::Test])
        } else {
            None
        },
    }
}

/// Whether `s` and `t` hold the same characters.
fn same_text(s: &str, t: &str) -> (r: bool)
    ensures
        r == (s@ == t@),
{
    let a = chars_of(s);
    let b = chars_of(t);
    if a.len() != b.len() {
        return false;
    }
    let mut i: usize = 0;
    while i < a.len()
        invariant
            a@ == s@,
            b@ == t@,
            a.len() == b.len(),
            i <= a.len(),
            forall|k: int| 0 <= k < i ==> a@[k] == b@[k],
        decreases a.len() - i,
    {
        if a[i] != b[i] {
            return false;
        }
        i = i + 1;
    }
    assert(a@ =~= b@);
    true
}

/// The command that the first argument after the program name asks for.
pub fn command_for(arg: Option<&str>) -> (r: Command)
    ensures
        match (r, tasks_for(
            match arg {
                Some(a) => Some(a@),
                None => None,
            },
        )) {
            (Command::Run(v), Some(ts)) => v@ == ts,
            (Command::Usage, None) => true,
            _ => false,
        },
{
    proof {
        reveal_strlit("render");
        reveal_strlit("test");
    }
    match arg {
        None => {
            let v = vec![Task::Test, Task::Build];
            assert(v@ =~= seq![Task::Test, Task::Build]);
            Command::Run(v)
        },
        Some(a) => {
            if same_text(a, "render") {
                let v = vec![Task::Build];
                assert(v@ =~= seq![Task::Build]);
                Command::Run(v)
            } else if same_text(a, "test") {
                let v = vec![Task::Test];
                assert(v@ =~= seq![Task::Test]);
                Command::Run(v)
            } else {
                Command::Usage
            }
        },
    }
}

/// What to do once `done` tasks of `tasks` have finished: after a failed task
/// the staged files are restored at once; otherwise the next task runs, and
/// the files are restored when none is left.
pub open spec fn action_after(tasks: Seq<Task>, done: int, failed: bool) -> Action {
    if failed {
        Action::Release { succeeded: false }
    } else if done < tasks.len() {
        Action::Start(tasks[done])
    } else {
        Action::Release { succeeded: true }
    }
}

/// The action that ends a run in which task `k` succeeds exactly when
/// `outcomes[k]` holds, from the point where `done` tasks have finished.
pub open spec fn last_action(tasks: Seq<Task>, outcomes: Seq<bool>, done: nat, failed: bool) -> Action
    decreases tasks.len() - done,
{
    match action_after(tasks, done as int, failed) {
        Action::Start(_) => if done < tasks.len() && done < outcomes.len() {
            last_action(tasks, outcomes, done + 1, !outcomes[done as int])
        } else {
            action_after(tasks, done as int, failed)
        },
        a => a,
    }
}

/// Every run ends by restoring the staged files, whatever the tasks'
/// outcomes; the release reports success exactly when every task succeeded.
pub proof fn lemma_run_always_releases(tasks: Seq<Task>, outcomes: Seq<bool>)
    requires
        outcomes.len() >= tasks.len(),
    ensures
        last_action(tasks, outcomes, 0, false) == (Action::Release {
            succeeded: forall|k: int| 0 <= k < tasks.len() ==> #[trigger] outcomes[k],
        }),
{
    lemma_run_releases_from(tasks, outcomes, 0);
}

proof fn lemma_run_releases_from(tasks: Seq<Task>, outcomes: Seq<bool>, done: nat)
    requires
        outcomes.len() >= tasks.len(),
        done <= tasks.len(),
    ensures
        last_action(tasks, outcomes, done, false) == (Action::Release {
            succeeded: forall|k: int| done <= k < tasks.len() ==> #[trigger] outcomes[k],
        }),
    decreases tasks.len() - done,
{
    if done < tasks.len() {
        if outcomes[done as int] {
            lemma_run_releases_from(tasks, outcomes, done + 1);
            let all_rest = forall|k: int| done + 1 <= k < tasks.len() ==> #[trigger] outcomes[k];
            let all_here = forall|k: int| done <= k < tasks.len() ==> #[trigger] outcomes[k];
            assert(all_rest == all_here) by {
                if all_rest {
                    assert forall|k: int| done <= k < tasks.len() implies #[trigger] outcomes[k] by {
                        if k > done {
                            assert(done + 1 <= k);
                        }
                    }
                }
            }
        } else {
            assert(last_action(tasks, outcomes, done + 1, true) == (Action::Release { succeeded: false }));
            assert(!outcomes[done as int]);
        }
    }
}

/// Decides the next step of a run whose files are staged, as `action_after` states.
pub fn next_action(tasks: &Vec<Task>, done: usize, failed: bool) -> (r: Action)
    ensures
        r == action_after(tasks@, done as int, failed),
{
    if failed {
        Action::Release { succeeded: false }
    } else if done < tasks.len() {
        Action::Start(tasks[done])
    } else {
        Action::Release { succeeded: true }
    }
}

} // verus!
