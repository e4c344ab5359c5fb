//! The task data model: priorities, tasks, keyed tasks, and display colors.

use vstd::prelude::*;
use crate::strutil::chars_to_string;

verus! {

/// Priority of a task. For listing purposes `High` sorts first,
/// then `Medium`, then `Low`.
#[derive(Debug, Clone, Copy, PartialEq, Eq, Structural)]
pub enum Priority {
    High,
    Medium,
    Low,
}

impl Priority {
    /// Numeric sort rank: smaller ranks sort first.
    pub open spec fn spec_rank(self) -> int {
        match self {
            Priority::High => 0,
            Priority::Medium => 1,
            Priority::Low => 2,
        }
    }

    /// Executable sort rank, equal to the specification rank.
    pub fn rank(&self) -> (r: u8)
        ensures
            r as int == self.spec_rank(),
    {
        match self {
            Priority::High => 0,
            Priority::Medium => 1,
            Priority::Low => 2,
        }
    }

    /// The display name of the priority.
    pub open spec fn spec_label(self) -> Seq<char> {
        match self {
            Priority::High => seq!['H', 'i', 'g', 'h'],
            Priority::Medium => seq!['M', 'e', 'd', 'i', 'u', 'm'],
            Priority::Low => seq!['L', 'o', 'w'],
        }
    }

    /// The display name of the priority, as characters.
    pub fn label_chars(&self) -> (v: Vec<char>)
        ensures
            v@ == self.spec_label(),
    {
        let mut v: Vec<char> = Vec::new();
        match self {
            Priority::High => {
                v.push('H');
                v.push('i');
                v.push('g');
                v.push('h');
            },
            Priority::Medium => {
                v.push('M');
                v.push('e');
                v.push('d');
                v.push('i');
                v.push('u');
                v.push('m');
            },
            Priority::Low => {
                v.push('L');
                v.push('o');
                v.push('w');
            },
        }
        proof {
            assert(v@ =~= self.spec_label());
        }
        v
    }

    /// The display name of the priority, as a string.
    pub fn label(&self) -> (s: String)
        ensures
            s@ == self.spec_label(),
    {
        let v = self.label_chars();
        chars_to_string(&v)
    }

    /// The three priorities, in menu order.
    pub fn values() -> (v: Vec<Priority>)
        ensures
            v@ =~= seq![Priority::High, Priority::Medium, Priority::Low],
    {
        let mut v: Vec<Priority> = Vec::new();
        v.push(Priority::High);
        v.push(Priority::Medium);
        v.push(Priority::Low);
        v
    }
}

/// A row of `n` spaces.
pub open spec fn spaces(n: int) -> Seq<char>
    decreases n,
{
    if n <= 0 {
        Seq::empty()
    } else {
        spaces(n - 1).push(' ')
    }
}

/// The display line of a task: the priority label right-aligned to ten
/// columns in square brackets, a space, the name, and a newline.
pub open spec fn spec_format_task(t: TaskSpec) -> Seq<char> {
    seq!['['] + spaces(10 - t.priority.spec_label().len()) + t.priority.spec_label() + seq![
        ']',
        ' ',
    ] + t.name + seq!['\n']
}

/// A task: a display name and a priority. Immutable once created.
#[derive(Debug)]
pub struct Task {
    pub name: String,
    pub priority: Priority,
}

impl Clone for Task {
    fn clone(&self) -> (r: Self)
        ensures
            r@ == self@,
    {
        Task { name: self.name.clone(), priority: self.priority }
    }
}

/// Mathematical model of a task: the name's character sequence
/// together with the priority.
#[verifier::ext_equal]
pub ghost struct TaskSpec {
    pub name: Seq<char>,
    pub priority: Priority,
}

impl View for Task {
    type V = TaskSpec;

    open spec fn view(&self) -> TaskSpec {
        TaskSpec { name: self.name@, priority: self.priority }
    }
}

/// The models of a sequence of tasks, elementwise.
pub open spec fn task_views(v: Seq<Task>) -> Seq<TaskSpec> {
    v.map_values(|t: Task| t@)
}

/// A `(TaskId, Task)` pair: how a stored task is referenced for
/// display and removal. A view over the store, not a storage entity.
#[derive(Debug)]
pub struct KeyedTask(pub u128, pub Task);

impl Clone for KeyedTask {
    fn clone(&self) -> (r: Self)
        ensures
            r@ == self@,
    {
        KeyedTask(self.0, self.1.clone())
    }
}

impl View for KeyedTask {
    type V = (u128, TaskSpec);

    open spec fn view(&self) -> (u128, TaskSpec) {
        (self.0, self.1@)
    }
}

/// Builds the display line of a task: `"[{label:>10}] {name}\n"`.
pub fn format_task(t: &Task) -> (s: String)
    ensures
        s@ == spec_format_task(t@),
{
    let label = t.priority.label_chars();
    let mut v: Vec<char> = Vec::new();
    v.push('[');
    let pad: usize = 10 - label.len();
    let ghost target = seq!['['] + spaces(10 - t@.priority.spec_label().len());
    let mut k: usize = 0;
    while k < pad
        invariant
            pad == 10 - t@.priority.spec_label().len(),
            k <= pad,
            target == seq!['['] + spaces(pad as int),
            v@ =~= seq!['['] + spaces(k as int),
        decreases pad - k,
    {
        v.push(' ');
        k += 1;
    }
    proof {
        assert(v@ =~= target);
    }
    let mut i: usize = 0;
    let n = label.len();
    while i < n
        invariant
            n == label@.len(),
            i <= n,
            v@ =~= target + label@.subrange(0, i as int),
        decreases n - i,
    {
        v.push(label[i]);
        proof {
            assert(v@ =~= target + label@.subrange(0, i + 1 as int));
        }
        i += 1;
    }
    v.push(']');
    v.push(' ');
    let name = crate::strutil::string_to_chars(t.name.as_str());
    let ghost head = v@;
    let mut j: usize = 0;
    let m = name.len();
    while j < m
        invariant
            m == name@.len(),
            j <= m,
            v@ =~= head + name@.subrange(0, j as int),
        decreases m - j,
    {
        v.push(name[j]);
        proof {
            assert(v@ =~= head + name@.subrange(0, j + 1 as int));
        }
        j += 1;
    }
    v.push('\n');
    proof {
        assert(v@ =~= spec_format_task(t@));
    }
    chars_to_string(&v)
}

/// Terminal foreground color used when a task is printed.
#[derive(Debug, Clone, Copy, PartialEq, Eq, Structural)]
pub enum ColorCode {
    Red,
    Yellow,
    Green,
}

/// Maps a priority to the color its tasks are printed with:
/// red for high, yellow for medium, green for low.
pub fn priority_to_color(p: &Priority) -> (c: ColorCode)
    ensures
        c == (match p {
            Priority::High => ColorCode::Red,
            Priority::Medium => ColorCode::Yellow,
            Priority::Low => ColorCode::Green,
        }),
{
    match p {
        Priority::Low => ColorCode::Green,
        Priority::High => ColorCode::Red,
        Priority::Medium => ColorCode::Yellow,
    }
}

} // verus!
