//! The action loop's state machine: the menu actions, the loop state with
//! its one-step deferred removal, and the transition functions.

use vstd::prelude::*;
use crate::task::{Task, TaskSpec, KeyedTask, Priority, task_views};
use crate::store::{MapTaskRepository, contains_id, remove_id, tasks_of};
use crate::strutil::chars_to_string;

verus! {

/// A user action chosen from the menu. A failed or unrecognised prompt
/// becomes `Unknown` with the provider's message.
#[derive(Debug)]
pub enum Action {
    Quit,
    List,
    Add,
    Remove,
    Unknown(String),
}

/// The menu label in square brackets and quotes, e.g. `["Quit"]`.
pub open spec fn bracket_quote(w: Seq<char>) -> Seq<char> {
    seq!['[', '"'] + w + seq!['"', ']']
}

impl Action {
    /// The word shown for the action.
    pub open spec fn menu_word(self) -> Seq<char> {
        match self {
            Action::Quit => seq!['Q', 'u', 'i', 't'],
            Action::List => seq!['L', 'i', 's', 't'],
            Action::Add => seq!['A', 'd', 'd'],
            Action::Remove => seq!['R', 'e', 'm', 'o', 'v', 'e'],
            Action::Unknown(_) => seq!['u', 'n', 'k', 'n', 'o', 'w', 'n'],
        }
    }

    /// The menu label of the action: its word in brackets and quotes.
    pub fn label(&self) -> (s: String)
        ensures
            s@ == bracket_quote(self.menu_word()),
    {
        let mut v: Vec<char> = Vec::new();
        v.push('[');
        v.push('"');
        match self {
            Action::Quit => {
                v.push('Q');
                v.push('u');
                v.push('i');
                v.push('t');
            },
            Action::List => {
                v.push('L');
                v.push('i');
                v.push('s');
                v.push('t');
            },
            Action::Add => {
                v.push('A');
                v.push('d');
                v.push('d');
            },
            Action::Remove => {
                v.push('R');
                v.push('e');
                v.push('m');
                v.push('o');
                v.push('v');
                v.push('e');
            },
            Action::Unknown(_) => {
                v.push('u');
                v.push('n');
                v.push('k');
                v.push('n');
                v.push('o');
                v.push('w');
                v.push('n');
            },
        }
        v.push('"');
        v.push(']');
        proof {
            assert(v@ =~= bracket_quote(self.menu_word()));
        }
        chars_to_string(&v)
    }

    /// The four selectable actions, in menu order.
    pub fn values() -> (v: Vec<Action>)
        ensures
            v@.len() == 4,
            v@[0] is Quit,
            v@[1] is List,
            v@[2] is Add,
            v@[3] is Remove,
    {
        let mut v: Vec<Action> = Vec::new();
        v.push(Action::Quit);
        v.push(Action::List);
        v.push(Action::Add);
        v.push(Action::Remove);
        v
    }
}

/// State carried between loop cycles: whether to keep looping, and at most
/// one pending `(Action, KeyedTask)` pair, used to defer a removal until
/// the cycle after the task was selected.
#[derive(Debug)]
pub struct State {
    pub should_continue: bool,
    pub task: Option<KeyedTask>,
    pub action: Option<Action>,
}

impl State {
    /// The state the loop starts in: continue, nothing pending.
    pub fn initial() -> (s: Self)
        ensures
            s.should_continue,
            s.task is None,
            s.action is None,
    {
        State { should_continue: true, task: None, action: None }
    }

    /// A removal is pending: a `Remove` action together with a selected task.
    pub open spec fn pending_remove(self) -> bool {
        &&& self.action matches Some(a) && a is Remove
        &&& self.task is Some
    }
}

impl Default for State {
    /// The all-empty state: do not continue, nothing pending.
    fn default() -> (s: Self)
        ensures
            !s.should_continue,
            s.task is None,
            s.action is None,
    {
        State { should_continue: false, task: None, action: None }
    }
}

/// The outcome of one menu choice, with whatever the prompts produced:
/// the task to add (or that a prompt failed), the selection for a removal
/// (or that it was cancelled), or the message of an unrecognised choice.
#[derive(Debug)]
pub enum ActionEvent {
    Quit,
    List,
    AddOk(Task),
    AddFailed,
    RemoveSelected(Option<KeyedTask>),
    Unknown(String),
}

/// Start-of-cycle commit: when a pending removal (a `Remove` action with a
/// selected task) was carried over, delete that task from the store and
/// clear both pending fields; otherwise leave everything as it was.
pub fn commit_pending(tr: &mut MapTaskRepository, state: State) -> (s2: State)
    requires
        old(tr).wf(),
    ensures
        final(tr).wf(),
        s2.should_continue == state.should_continue,
        state.pending_remove() ==> {
            &&& final(tr)@ == remove_id(old(tr)@, state.task.unwrap()@.0)
            &&& s2.task is None
            &&& s2.action is None
        },
        !state.pending_remove() ==> {
            &&& final(tr)@ == old(tr)@
            &&& s2.task == state.task
            &&& s2.action == state.action
        },
{
    let do_commit = match (&state.action, &state.task) {
        (Some(Action::Remove), Some(_)) => true,
        _ => false,
    };
    if do_commit {
        let kt = state.task.unwrap();
        tr.remove_task(&kt);
        State { should_continue: state.should_continue, task: None, action: None }
    } else {
        state
    }
}

/// Applies one chosen action to the store and the loop state:
/// `Quit` stops the loop; `List`, a failed add, a cancelled selection and
/// an unknown choice change nothing; a completed add inserts the new task
/// under a fresh identifier; a removal selection records the pending
/// `(Remove, task)` pair for the next cycle's commit.
pub fn execute_action(ev: ActionEvent, tr: &mut MapTaskRepository, state: State) -> (s2: State)
    requires
        old(tr).wf(),
    ensures
        final(tr).wf(),
        match ev {
            ActionEvent::Quit => {
                &&& final(tr)@ == old(tr)@
                &&& !s2.should_continue
                &&& s2.task == state.task
                &&& s2.action == state.action
            },
            ActionEvent::List => {
                &&& final(tr)@ == old(tr)@
                &&& s2.should_continue == state.should_continue
                &&& s2.task == state.task
                &&& s2.action == state.action
            },
            ActionEvent::AddOk(t) => {
                &&& (exists|id: u128|
                    !contains_id(old(tr)@, id) && final(tr)@ == old(tr)@.push((id, t@)))
                &&& s2.should_continue == state.should_continue
                &&& s2.task == state.task
                &&& s2.action == state.action
            },
            ActionEvent::AddFailed => {
                &&& final(tr)@ == old(tr)@
                &&& s2.should_continue == state.should_continue
                &&& s2.task == state.task
                &&& s2.action == state.action
            },
            ActionEvent::RemoveSelected(sel) => {
                &&& final(tr)@ == old(tr)@
                &&& s2.should_continue == state.should_continue
                &&& s2.task == sel
                &&& s2.action matches Some(a) && a is Remove
            },
            ActionEvent::Unknown(_) => {
                &&& final(tr)@ == old(tr)@
                &&& s2.should_continue == state.should_continue
                &&& s2.task == state.task
                &&& s2.action == state.action
            },
        },
{
    match ev {
        ActionEvent::Quit => State {
            should_continue: false,
            task: state.task,
            action: state.action,
        },
        ActionEvent::List => state,
        ActionEvent::AddOk(t) => {
            let ghost prev = tr@;
            let id = tr.add_task(t);
            proof {
                assert(exists|i: u128| !contains_id(prev, i) && tr@ == prev.push((i, ev->AddOk_0@)));
            }
            state
        },
        ActionEvent::AddFailed => state,
        ActionEvent::RemoveSelected(sel) => State {
            should_continue: state.should_continue,
            task: sel,
            action: Some(Action::Remove),
        },
        ActionEvent::Unknown(_) => state,
    }
}

/// Seeds a just-loaded store: every loaded task is added under a fresh
/// identifier; a store still empty afterwards (nothing stored, nothing
/// loaded) is seeded with the two default tasks, "Learn Rust" at high
/// priority and "Learn NeoVim" at medium priority.
pub fn load_tasks(tr: &mut MapTaskRepository, parsed: Vec<Task>)
    requires
        old(tr).wf(),
    ensures
        final(tr).wf(),
        old(tr)@.len() + parsed@.len() > 0 ==> tasks_of(final(tr)@) == tasks_of(old(tr)@)
            + task_views(parsed@),
        old(tr)@.len() + parsed@.len() == 0 ==> tasks_of(final(tr)@) == seq![
            default_task_spec_1(),
            default_task_spec_2(),
        ],
{
    let n = parsed.len();
    let mut i: usize = 0;
    while i < n
        invariant
            tr.wf(),
            n == parsed@.len(),
            i <= n,
            tr@.len() == old(tr)@.len() + i,
            tasks_of(tr@) =~= tasks_of(old(tr)@) + task_views(parsed@.subrange(0, i as int)),
        decreases n - i,
    {
        let t = parsed[i].clone();
        let ghost prev = tr@;
        tr.add_task(t);
        proof {
            assert(tasks_of(tr@) =~= tasks_of(prev).push(parsed@[i as int]@));
            assert(tasks_of(tr@) =~= tasks_of(old(tr)@) + task_views(
                parsed@.subrange(0, i + 1 as int),
            ));
        }
        i += 1;
    }
    if tr.is_empty() {
        let t1 = Task { name: "Learn Rust".to_owned(), priority: Priority::High };
        let t2 = Task { name: "Learn NeoVim".to_owned(), priority: Priority::Medium };
        let ghost before_first = tr@;
        tr.add_task(t1);
        let ghost after_first = tr@;
        tr.add_task(t2);
        proof {
            assert(tasks_of(after_first) =~= tasks_of(before_first).push(default_task_spec_1()));
            assert(tasks_of(tr@) =~= tasks_of(after_first).push(default_task_spec_2()));
            assert(tasks_of(tr@) =~= seq![default_task_spec_1(), default_task_spec_2()]);
        }
    } else {
        proof {
            assert(parsed@.subrange(0, n as int) =~= parsed@);
        }
    }
}

/// The first default task: "Learn Rust", high priority.
pub open spec fn default_task_spec_1() -> TaskSpec {
    TaskSpec { name: "Learn Rust"@, priority: Priority::High }
}

/// The second default task: "Learn NeoVim", medium priority.
pub open spec fn default_task_spec_2() -> TaskSpec {
    TaskSpec { name: "Learn NeoVim"@, priority: Priority::Medium }
}

} // verus!
