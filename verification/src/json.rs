//! The persistence format: a JSON array of task objects, each
//! `{"name": string, "priority": "High"|"Medium"|"Low"}`, with a verified
//! serializer and parser.

use vstd::prelude::*;
use crate::task::{Task, TaskSpec, Priority, task_views};
use crate::store::{MapTaskRepository, tasks_of, keyed_view};
use crate::strutil::{chars_to_string, string_to_chars};

verus! {

// ------------------------------------------------------------------
// Serialization model
// ------------------------------------------------------------------

/// The lowercase hexadecimal digit for a value below sixteen.
pub open spec fn hex_digit(n: int) -> char {
    if n == 0 {
        '0'
    } else if n == 1 {
        '1'
    } else if n == 2 {
        '2'
    } else if n == 3 {
        '3'
    } else if n == 4 {
        '4'
    } else if n == 5 {
        '5'
    } else if n == 6 {
        '6'
    } else if n == 7 {
        '7'
    } else if n == 8 {
        '8'
    } else if n == 9 {
        '9'
    } else if n == 10 {
        'a'
    } else if n == 11 {
        'b'
    } else if n == 12 {
        'c'
    } else if n == 13 {
        'd'
    } else if n == 14 {
        'e'
    } else {
        'f'
    }
}

/// How one character is written inside a JSON string: quotes and
/// backslashes get a backslash escape, control characters a `\u00XX`
/// escape, every other character stands as itself.
pub open spec fn escape_char(c: char) -> Seq<char> {
    if c == '"' {
        seq!['\\', '"']
    } else if c == '\\' {
        seq!['\\', '\\']
    } else if (c as u32) < 0x20 {
        seq!['\\', 'u', '0', '0', hex_digit((c as u32) as int / 16), hex_digit(
            (c as u32) as int % 16,
        )]
    } else {
        seq![c]
    }
}

/// A whole text escaped character by character.
pub open spec fn escape(s: Seq<char>) -> Seq<char>
    decreases s.len(),
{
    if s.len() == 0 {
        Seq::empty()
    } else {
        escape_char(s[0]) + escape(s.drop_first())
    }
}

/// The JSON object written for one task.
pub open spec fn json_of_task(t: TaskSpec) -> Seq<char> {
    seq!['{', '"', 'n', 'a', 'm', 'e', '"', ':', '"'] + escape(t.name) + seq![
        '"',
        ',',
        '"',
        'p',
        'r',
        'i',
        'o',
        'r',
        'i',
        't',
        'y',
        '"',
        ':',
        '"',
    ] + t.priority.spec_label() + seq!['"', '}']
}

/// One or more task objects separated by commas.
pub open spec fn json_of_items(ts: Seq<TaskSpec>) -> Seq<char>
    decreases ts.len(),
{
    if ts.len() == 0 {
        Seq::empty()
    } else if ts.len() == 1 {
        json_of_task(ts[0])
    } else {
        json_of_task(ts[0]) + seq![','] + json_of_items(ts.drop_first())
    }
}

/// The JSON text written for a task list: the task objects in order,
/// comma-separated, in square brackets.
pub open spec fn json_of_tasks(ts: Seq<TaskSpec>) -> Seq<char> {
    if ts.len() == 0 {
        seq!['[', ']']
    } else {
        seq!['['] + json_of_items(ts) + seq![']']
    }
}

/// Escaping distributes over concatenation.
pub proof fn lemma_escape_concat(a: Seq<char>, b: Seq<char>)
    ensures
        escape(a + b) == escape(a) + escape(b),
    decreases a.len(),
{
    if a.len() == 0 {
        assert(a + b =~= b);
        assert(escape(a) + escape(b) =~= escape(b));
    } else {
        lemma_escape_concat(a.drop_first(), b);
        assert((a + b).drop_first() =~= a.drop_first() + b);
        assert((a + b).len() > 0);
        assert((a + b)[0] == a[0]);
        assert(escape(a + b) == escape_char(a[0]) + escape(a.drop_first() + b));
        assert(escape_char(a[0]) + (escape(a.drop_first()) + escape(b)) =~= (escape_char(a[0])
            + escape(a.drop_first())) + escape(b));
    }
}

/// Escaping one more character appends that character's escape.
pub proof fn lemma_escape_snoc(s: Seq<char>, c: char)
    ensures
        escape(s.push(c)) == escape(s) + escape_char(c),
{
    lemma_escape_concat(s, seq![c]);
    assert(s.push(c) =~= s + seq![c]);
    assert(seq![c].drop_first() =~= Seq::<char>::empty());
    assert(escape(seq![c]) == escape_char(seq![c][0]) + escape(seq![c].drop_first()));
    assert(escape(Seq::<char>::empty()) == Seq::<char>::empty());
    assert(escape_char(c) + Seq::<char>::empty() =~= escape_char(c));
    assert(escape(seq![c]) =~= escape_char(c));
}

/// Appending one more task object to a non-empty item row.
pub proof fn lemma_json_items_snoc(ts: Seq<TaskSpec>, t: TaskSpec)
    requires
        ts.len() >= 1,
    ensures
        json_of_items(ts.push(t)) == json_of_items(ts) + seq![','] + json_of_task(t),
    decreases ts.len(),
{
    if ts.len() == 1 {
        assert(ts.push(t).drop_first() =~= seq![t]);
        assert(json_of_items(seq![t]) == json_of_task(t));
        assert(json_of_items(ts.push(t)) == json_of_task(ts[0]) + seq![','] + json_of_task(t));
    } else {
        lemma_json_items_snoc(ts.drop_first(), t);
        assert(ts.push(t).drop_first() =~= ts.drop_first().push(t));
        assert(json_of_items(ts.push(t)) == json_of_task(ts[0]) + seq![','] + (json_of_items(
            ts.drop_first(),
        ) + seq![','] + json_of_task(t)));
        assert(json_of_task(ts[0]) + seq![','] + (json_of_items(ts.drop_first()) + seq![',']
            + json_of_task(t)) =~= (json_of_task(ts[0]) + seq![','] + json_of_items(
            ts.drop_first(),
        )) + seq![','] + json_of_task(t));
    }
}

// ------------------------------------------------------------------
// Serializer
// ------------------------------------------------------------------

/// The lowercase hexadecimal digit of a value below sixteen.
fn hex_digit_char(n: u32) -> (c: char)
    requires
        n < 16,
    ensures
        c == hex_digit(n as int),
{
    if n == 0 {
        '0'
    } else if n == 1 {
        '1'
    } else if n == 2 {
        '2'
    } else if n == 3 {
        '3'
    } else if n == 4 {
        '4'
    } else if n == 5 {
        '5'
    } else if n == 6 {
        '6'
    } else if n == 7 {
        '7'
    } else if n == 8 {
        '8'
    } else if n == 9 {
        '9'
    } else if n == 10 {
        'a'
    } else if n == 11 {
        'b'
    } else if n == 12 {
        'c'
    } else if n == 13 {
        'd'
    } else if n == 14 {
        'e'
    } else {
        'f'
    }
}

/// Appends the escape of one character.
fn push_escaped(out: &mut Vec<char>, c: char)
    ensures
        final(out)@ == old(out)@ + escape_char(c),
{
    let ghost base = out@;
    let code = c as u32;
    if c == '"' {
        out.push('\\');
        out.push('"');
    } else if c == '\\' {
        out.push('\\');
        out.push('\\');
    } else if code < 0x20 {
        out.push('\\');
        out.push('u');
        out.push('0');
        out.push('0');
        out.push(hex_digit_char(code / 16));
        out.push(hex_digit_char(code % 16));
    } else {
        out.push(c);
    }
    proof {
        assert(out@ =~= base + escape_char(c));
    }
}

/// Appends the JSON object of one task.
fn append_json_task(out: &mut Vec<char>, t: &Task)
    ensures
        final(out)@ == old(out)@ + json_of_task(t@),
{
    let ghost base = out@;
    out.push('{');
    out.push('"');
    out.push('n');
    out.push('a');
    out.push('m');
    out.push('e');
    out.push('"');
    out.push(':');
    out.push('"');
    let name = string_to_chars(t.name.as_str());
    let n = name.len();
    let ghost head = out@;
    let mut i: usize = 0;
    while i < n
        invariant
            n == name@.len(),
            i <= n,
            out@ =~= head + escape(name@.take(i as int)),
        decreases n - i,
    {
        push_escaped(out, name[i]);
        proof {
            lemma_escape_snoc(name@.take(i as int), name@[i as int]);
            assert(name@.take(i + 1 as int) =~= name@.take(i as int).push(name@[i as int]));
            assert(out@ =~= head + escape(name@.take(i + 1 as int)));
        }
        i += 1;
    }
    proof {
        assert(name@.take(n as int) =~= name@);
    }
    out.push('"');
    out.push(',');
    out.push('"');
    out.push('p');
    out.push('r');
    out.push('i');
    out.push('o');
    out.push('r');
    out.push('i');
    out.push('t');
    out.push('y');
    out.push('"');
    out.push(':');
    out.push('"');
    let label = t.priority.label_chars();
    let m = label.len();
    let ghost head2 = out@;
    let mut j: usize = 0;
    while j < m
        invariant
            m == label@.len(),
            j <= m,
            out@ =~= head2 + label@.take(j as int),
        decreases m - j,
    {
        out.push(label[j]);
        proof {
            assert(out@ =~= head2 + label@.take(j + 1 as int));
        }
        j += 1;
    }
    proof {
        assert(label@.take(m as int) =~= label@);
    }
    out.push('"');
    out.push('}');
    proof {
        assert(out@ =~= base + json_of_task(t@));
    }
}

/// Serializes a task list to its JSON text.
pub fn tasks_to_json(tasks: &Vec<Task>) -> (s: String)
    ensures
        s@ == json_of_tasks(task_views(tasks@)),
{
    let n = tasks.len();
    let mut out: Vec<char> = Vec::new();
    out.push('[');
    let mut i: usize = 0;
    while i < n
        invariant
            n == tasks@.len(),
            i <= n,
            i == 0 ==> out@ =~= seq!['['],
            i > 0 ==> out@ =~= seq!['['] + json_of_items(task_views(tasks@.take(i as int))),
        decreases n - i,
    {
        if i > 0 {
            out.push(',');
        }
        append_json_task(&mut out, &tasks[i]);
        proof {
            let prefix = task_views(tasks@.take(i as int));
            let prefix1 = task_views(tasks@.take(i + 1 as int));
            assert(prefix1 =~= prefix.push(tasks@[i as int]@));
            if i == 0 {
                assert(prefix1 =~= seq![tasks@[0]@]);
                assert(json_of_items(prefix1) == json_of_task(tasks@[0]@));
                assert(out@ =~= seq!['['] + json_of_items(prefix1));
            } else {
                lemma_json_items_snoc(prefix, tasks@[i as int]@);
                assert(out@ =~= seq!['['] + json_of_items(prefix1));
            }
        }
        i += 1;
    }
    out.push(']');
    proof {
        assert(tasks@.take(n as int) =~= tasks@);
        if n == 0 {
            assert(out@ =~= json_of_tasks(task_views(tasks@)));
        } else {
            assert(out@ =~= json_of_tasks(task_views(tasks@)));
        }
    }
    chars_to_string(&out)
}

/// The JSON text of everything the store holds, in storage order, without
/// the identifiers (identifiers do not survive persistence).
pub fn save_tasks(tr: &MapTaskRepository) -> (s: String)
    ensures
        s@ == json_of_tasks(tasks_of(tr@)),
{
    let all = tr.get_all();
    let n = all.len();
    let mut tasks: Vec<Task> = Vec::new();
    let mut i: usize = 0;
    while i < n
        invariant
            n == all@.len(),
            i <= n,
            keyed_view(all@) == tr@,
            task_views(tasks@) =~= tasks_of(tr@).take(i as int),
        decreases n - i,
    {
        let t = all[i].1.clone();
        let ghost prev = tasks@;
        tasks.push(t);
        proof {
            assert(keyed_view(all@)[i as int] == all@[i as int]@);
            assert(tr@[i as int] == all@[i as int]@);
            assert(tasks_of(tr@)[i as int] == all@[i as int].1@);
            assert(task_views(tasks@) =~= task_views(prev).push(all@[i as int].1@));
            assert(task_views(tasks@) =~= tasks_of(tr@).take(i + 1 as int));
        }
        i += 1;
    }
    proof {
        assert(task_views(tasks@) =~= tasks_of(tr@));
    }
    tasks_to_json(&tasks)
}

// ------------------------------------------------------------------
// Parsing model
// ------------------------------------------------------------------

/// JSON whitespace.
pub open spec fn is_ws(c: char) -> bool {
    c == ' ' || c == '\t' || c == '\n' || c == '\r'
}

/// The text with its leading whitespace dropped.
pub open spec fn skip_ws(s: Seq<char>) -> Seq<char>
    decreases s.len(),
{
    if s.len() > 0 && is_ws(s[0]) {
        skip_ws(s.drop_first())
    } else {
        s
    }
}

/// The value of a hexadecimal digit, either case; `-1` for any other
/// character.
pub open spec fn hex_val(c: char) -> int {
    let n = (c as u32) as int;
    if 48 <= n && n <= 57 {
        n - 48
    } else if 97 <= n && n <= 102 {
        n - 87
    } else if 65 <= n && n <= 70 {
        n - 55
    } else {
        -1
    }
}

/// Whether the character is a hexadecimal digit.
pub open spec fn is_hex(c: char) -> bool {
    hex_val(c) >= 0
}

/// The character with the given code point.
pub open spec fn char_of(code: u32) -> char {
    choose|c: char| (#[trigger] (c as u32)) == code
}

/// The character a single-letter escape stands for.
pub open spec fn escape_code(c: char) -> Option<char> {
    if c == '"' {
        Some('"')
    } else if c == '\\' {
        Some('\\')
    } else if c == '/' {
        Some('/')
    } else if c == 'b' {
        Some('\u{8}')
    } else if c == 'f' {
        Some('\u{c}')
    } else if c == 'n' {
        Some('\n')
    } else if c == 'r' {
        Some('\r')
    } else if c == 't' {
        Some('\t')
    } else {
        None
    }
}

/// Parses the inside of a JSON string up to and over its closing quote:
/// the decoded content and the remaining text. `None` on an unterminated
/// string, a bad escape, a surrogate code point, or a raw control
/// character.
pub open spec fn spec_parse_string_body(s: Seq<char>) -> Option<(Seq<char>, Seq<char>)>
    decreases s.len(),
{
    if s.len() == 0 {
        None
    } else if s[0] == '"' {
        Some((Seq::empty(), s.drop_first()))
    } else if s[0] == '\\' {
        if s.len() < 2 {
            None
        } else if s[1] == 'u' {
            if s.len() < 6 {
                None
            } else if is_hex(s[2]) && is_hex(s[3]) && is_hex(s[4]) && is_hex(s[5]) {
                let code = hex_val(s[2]) * 4096 + hex_val(s[3]) * 256 + hex_val(s[4]) * 16
                    + hex_val(s[5]);
                if 0xD800 <= code && code < 0xE000 {
                    None
                } else {
                    match spec_parse_string_body(s.skip(6)) {
                        Some((t, r)) => Some((seq![char_of(code as u32)] + t, r)),
                        None => None,
                    }
                }
            } else {
                None
            }
        } else {
            match escape_code(s[1]) {
                Some(d) => match spec_parse_string_body(s.skip(2)) {
                    Some((t, r)) => Some((seq![d] + t, r)),
                    None => None,
                },
                None => None,
            }
        }
    } else if (s[0] as u32) < 0x20 {
        None
    } else {
        match spec_parse_string_body(s.drop_first()) {
            Some((t, r)) => Some((seq![s[0]] + t, r)),
            None => None,
        }
    }
}

/// Parses a JSON string, opening quote included.
pub open spec fn spec_parse_string(s: Seq<char>) -> Option<(Seq<char>, Seq<char>)> {
    if s.len() > 0 && s[0] == '"' {
        spec_parse_string_body(s.drop_first())
    } else {
        None
    }
}

/// The priority a label names, if any.
pub open spec fn spec_parse_priority(content: Seq<char>) -> Option<Priority> {
    if content == Priority::High.spec_label() {
        Some(Priority::High)
    } else if content == Priority::Medium.spec_label() {
        Some(Priority::Medium)
    } else if content == Priority::Low.spec_label() {
        Some(Priority::Low)
    } else {
        None
    }
}

/// Parses one task object: `{"name": string, "priority": label}`, with
/// whitespace allowed between tokens. Expects the text to start at the
/// opening brace.
pub open spec fn spec_parse_task(s: Seq<char>) -> Option<(TaskSpec, Seq<char>)> {
    if s.len() == 0 || s[0] != '{' {
        None
    } else {
        let s1 = skip_ws(s.drop_first());
        match spec_parse_string(s1) {
            None => None,
            Some((k1, s2)) => if k1 != seq!['n', 'a', 'm', 'e'] {
                None
            } else {
                let s3 = skip_ws(s2);
                if s3.len() == 0 || s3[0] != ':' {
                    None
                } else {
                    let s4 = skip_ws(s3.drop_first());
                    match spec_parse_string(s4) {
                        None => None,
                        Some((nm, s5)) => {
                            let s6 = skip_ws(s5);
                            if s6.len() == 0 || s6[0] != ',' {
                                None
                            } else {
                                let s7 = skip_ws(s6.drop_first());
                                match spec_parse_string(s7) {
                                    None => None,
                                    Some((k2, s8)) => if k2 != seq![
                                        'p',
                                        'r',
                                        'i',
                                        'o',
                                        'r',
                                        'i',
                                        't',
                                        'y',
                                    ] {
                                        None
                                    } else {
                                        let s9 = skip_ws(s8);
                                        if s9.len() == 0 || s9[0] != ':' {
                                            None
                                        } else {
                                            let s10 = skip_ws(s9.drop_first());
                                            match spec_parse_string(s10) {
                                                None => None,
                                                Some((pv, s11)) => match spec_parse_priority(pv) {
                                                    None => None,
                                                    Some(p) => {
                                                        let s12 = skip_ws(s11);
                                                        if s12.len() == 0 || s12[0] != '}' {
                                                            None
                                                        } else {
                                                            Some(
                                                                (
                                                                    TaskSpec {
                                                                        name: nm,
                                                                        priority: p,
                                                                    },
                                                                    s12.drop_first(),
                                                                ),
                                                            )
                                                        }
                                                    },
                                                },
                                            }
                                        }
                                    },
                                }
                            }
                        },
                    }
                }
            },
        }
    }
}

/// Skipping whitespace never lengthens the text.
pub proof fn lemma_skip_ws_len(s: Seq<char>)
    ensures
        skip_ws(s).len() <= s.len(),
    decreases s.len(),
{
    if s.len() > 0 && is_ws(s[0]) {
        lemma_skip_ws_len(s.drop_first());
    }
}

/// Parsing a string body consumes at least the closing quote.
pub proof fn lemma_parse_string_body_len(s: Seq<char>)
    ensures
        spec_parse_string_body(s) matches Some(p) ==> p.1.len() < s.len(),
    decreases s.len(),
{
    if s.len() == 0 {
    } else if s[0] == '"' {
    } else if s[0] == '\\' {
        if s.len() >= 6 {
            lemma_parse_string_body_len(s.skip(6));
        }
        if s.len() >= 2 {
            lemma_parse_string_body_len(s.skip(2));
        }
    } else {
        lemma_parse_string_body_len(s.drop_first());
    }
}

/// Parsing a string consumes at least its quotes.
pub proof fn lemma_parse_string_len(s: Seq<char>)
    ensures
        spec_parse_string(s) matches Some(p) ==> p.1.len() < s.len(),
{
    if s.len() > 0 && s[0] == '"' {
        lemma_parse_string_body_len(s.drop_first());
    }
}

/// Parsing a task object consumes at least its braces.
pub proof fn lemma_parse_task_len(s: Seq<char>)
    ensures
        spec_parse_task(s) matches Some(p) ==> p.1.len() < s.len(),
{
    if s.len() == 0 || s[0] != '{' {
    } else {
        let s1 = skip_ws(s.drop_first());
        lemma_skip_ws_len(s.drop_first());
        lemma_parse_string_len(s1);
        match spec_parse_string(s1) {
            None => {},
            Some((k1, s2)) => {
                let s3 = skip_ws(s2);
                lemma_skip_ws_len(s2);
                if s3.len() == 0 || s3[0] != ':' {
                } else {
                    let s4 = skip_ws(s3.drop_first());
                    lemma_skip_ws_len(s3.drop_first());
                    lemma_parse_string_len(s4);
                    match spec_parse_string(s4) {
                        None => {},
                        Some((nm, s5)) => {
                            let s6 = skip_ws(s5);
                            lemma_skip_ws_len(s5);
                            if s6.len() == 0 || s6[0] != ',' {
                            } else {
                                let s7 = skip_ws(s6.drop_first());
                                lemma_skip_ws_len(s6.drop_first());
                                lemma_parse_string_len(s7);
                                match spec_parse_string(s7) {
                                    None => {},
                                    Some((k2, s8)) => {
                                        let s9 = skip_ws(s8);
                                        lemma_skip_ws_len(s8);
                                        if s9.len() == 0 || s9[0] != ':' {
                                        } else {
                                            let s10 = skip_ws(s9.drop_first());
                                            lemma_skip_ws_len(s9.drop_first());
                                            lemma_parse_string_len(s10);
                                            match spec_parse_string(s10) {
                                                None => {},
                                                Some((pv, s11)) => {
                                                    let s12 = skip_ws(s11);
                                                    lemma_skip_ws_len(s11);
                                                },
                                            }
                                        }
                                    },
                                }
                            }
                        },
                    }
                }
            },
        }
    }
}

/// Parses one or more comma-separated task objects up to and over the
/// closing bracket of the array.
pub open spec fn spec_parse_items(s: Seq<char>) -> Option<(Seq<TaskSpec>, Seq<char>)>
    decreases s.len(),
{
    match spec_parse_task(skip_ws(s)) {
        None => None,
        Some((t, r)) => {
            let r1 = skip_ws(r);
            if r1.len() == 0 {
                None
            } else if r1[0] == ']' {
                Some((seq![t], r1.drop_first()))
            } else if r1[0] == ',' {
                proof {
                    lemma_skip_ws_len(s);
                    lemma_parse_task_len(skip_ws(s));
                    lemma_skip_ws_len(r);
                }
                match spec_parse_items(r1.drop_first()) {
                    None => None,
                    Some((ts, r2)) => Some((seq![t] + ts, r2)),
                }
            } else {
                None
            }
        },
    }
}

/// Parses a whole persisted text: a JSON array of task objects, allowing
/// whitespace, with nothing but whitespace after it.
pub open spec fn spec_parse_tasks(s: Seq<char>) -> Option<Seq<TaskSpec>> {
    let s1 = skip_ws(s);
    if s1.len() == 0 || s1[0] != '[' {
        None
    } else {
        let s2 = skip_ws(s1.drop_first());
        if s2.len() > 0 && s2[0] == ']' {
            if skip_ws(s2.drop_first()).len() == 0 {
                Some(Seq::empty())
            } else {
                None
            }
        } else {
            match spec_parse_items(s1.drop_first()) {
                None => None,
                Some((ts, r)) => if skip_ws(r).len() == 0 {
                    Some(ts)
                } else {
                    None
                },
            }
        }
    }
}

// ------------------------------------------------------------------
// Parser
// ------------------------------------------------------------------

/// Why a persisted text was rejected.
#[derive(Debug, Clone, Copy, PartialEq, Eq, Structural)]
pub enum JsonError {
    Malformed,
}

/// Relies on `char::from_u32`: converts a code point to a character,
/// `None` exactly for surrogate code points and values above the Unicode
/// maximum.
pub assume_specification[ char::from_u32 ](code: u32) -> (r: Option<char>)
    ensures
        (r matches Some(c) ==> c as u32 == code),
        r is Some <==> (code < 0xD800 || (0xE000 <= code && code < 0x110000)),
;

/// Two characters with one code point are one character.
pub proof fn lemma_char_of_code(c: char)
    ensures
        char_of(c as u32) == c,
{
    assert(c as u32 == c as u32);
    let w = char_of(c as u32);
    assert(w as u32 == c as u32);
    assert(w == c);
}

/// The text after its leading whitespace.
fn skip_ws_slice(s: &[char]) -> (r: &[char])
    ensures
        r@ == skip_ws(s@),
    decreases s@.len(),
{
    if s.len() > 0 {
        let c = s[0];
        if c == ' ' || c == '\t' || c == '\n' || c == '\r' {
            let (_, rest) = s.split_at(1);
            proof {
                assert(rest@ =~= s@.drop_first());
            }
            return skip_ws_slice(rest);
        }
    }
    s
}

/// The value of a hexadecimal digit, if it is one.
fn hex_val_char(c: char) -> (r: Option<u32>)
    ensures
        r matches Some(v) ==> is_hex(c) && v == hex_val(c) && v < 16,
        r is None ==> !is_hex(c),
{
    let n = c as u32;
    if 48 <= n && n <= 57 {
        Some(n - 48)
    } else if 97 <= n && n <= 102 {
        Some(n - 87)
    } else if 65 <= n && n <= 70 {
        Some(n - 55)
    } else {
        None
    }
}

/// The character a single-letter escape stands for, if any.
fn escape_code_char(c: char) -> (r: Option<char>)
    ensures
        r == escape_code(c),
{
    if c == '"' {
        Some('"')
    } else if c == '\\' {
        Some('\\')
    } else if c == '/' {
        Some('/')
    } else if c == 'b' {
        Some('\u{8}')
    } else if c == 'f' {
        Some('\u{c}')
    } else if c == 'n' {
        Some('\n')
    } else if c == 'r' {
        Some('\r')
    } else if c == 't' {
        Some('\t')
    } else {
        None
    }
}

/// Parses the inside of a JSON string up to and over its closing quote.
fn parse_string_body(s: &[char]) -> (r: Option<(Vec<char>, &[char])>)
    ensures
        (match r {
            Some(p) => spec_parse_string_body(s@) == Some((p.0@, p.1@)),
            None => spec_parse_string_body(s@) is None,
        }),
    decreases s@.len(),
{
    if s.len() == 0 {
        return None;
    }
    let c = s[0];
    if c == '"' {
        let (_, rest) = s.split_at(1);
        proof {
            assert(rest@ =~= s@.drop_first());
        }
        let out: Vec<char> = Vec::new();
        proof {
            assert(out@ =~= Seq::<char>::empty());
        }
        return Some((out, rest));
    }
    if c == '\\' {
        if s.len() < 2 {
            return None;
        }
        let e = s[1];
        if e == 'u' {
            if s.len() < 6 {
                return None;
            }
            let v2 = match hex_val_char(s[2]) {
                Some(v) => v,
                None => {
                    return None;
                },
            };
            let v3 = match hex_val_char(s[3]) {
                Some(v) => v,
                None => {
                    return None;
                },
            };
            let v4 = match hex_val_char(s[4]) {
                Some(v) => v,
                None => {
                    return None;
                },
            };
            let v5 = match hex_val_char(s[5]) {
                Some(v) => v,
                None => {
                    return None;
                },
            };
            let code: u32 = v2 * 4096 + v3 * 256 + v4 * 16 + v5;
            if 0xD800 <= code && code < 0xE000 {
                return None;
            }
            let d = match char::from_u32(code) {
                Some(d) => d,
                None => {
                    proof {
                        assert(false);
                    }
                    return None;
                },
            };
            let (_, rest) = s.split_at(6);
            proof {
                assert(rest@ =~= s@.skip(6));
            }
            match parse_string_body(rest) {
                Some((mut t, r2)) => {
                    let ghost tprev = t@;
                    t.insert(0, d);
                    proof {
                        assert(d as u32 == code);
                        lemma_char_of_code(d);
                        assert(t@ =~= seq![char_of(code)] + tprev);
                    }
                    Some((t, r2))
                },
                None => None,
            }
        } else {
            let d = match escape_code_char(e) {
                Some(d) => d,
                None => {
                    return None;
                },
            };
            let (_, rest) = s.split_at(2);
            proof {
                assert(rest@ =~= s@.skip(2));
            }
            match parse_string_body(rest) {
                Some((mut t, r2)) => {
                    let ghost tprev = t@;
                    t.insert(0, d);
                    proof {
                        assert(t@ =~= seq![d] + tprev);
                    }
                    Some((t, r2))
                },
                None => None,
            }
        }
    } else if (c as u32) < 0x20 {
        None
    } else {
        let (_, rest) = s.split_at(1);
        proof {
            assert(rest@ =~= s@.drop_first());
        }
        match parse_string_body(rest) {
            Some((mut t, r2)) => {
                let ghost tprev = t@;
                t.insert(0, c);
                proof {
                    assert(t@ =~= seq![c] + tprev);
                }
                Some((t, r2))
            },
            None => None,
        }
    }
}

/// Parses a JSON string, opening quote included.
fn parse_string(s: &[char]) -> (r: Option<(Vec<char>, &[char])>)
    ensures
        (match r {
            Some(p) => spec_parse_string(s@) == Some((p.0@, p.1@)),
            None => spec_parse_string(s@) is None,
        }),
{
    if s.len() == 0 {
        return None;
    }
    if s[0] != '"' {
        return None;
    }
    let (_, rest) = s.split_at(1);
    proof {
        assert(rest@ =~= s@.drop_first());
    }
    parse_string_body(rest)
}

/// Whether two character rows hold the same characters.
fn chars_eq(a: &Vec<char>, b: &Vec<char>) -> (r: bool)
    ensures
        r == (a@ == b@),
{
    if a.len() != b.len() {
        return false;
    }
    let n = a.len();
    let mut i: usize = 0;
    while i < n
        invariant
            n == a@.len(),
            n == b@.len(),
            i <= n,
            forall|j: int| 0 <= j < i ==> a@[j] == b@[j],
        decreases n - i,
    {
        if a[i] != b[i] {
            return false;
        }
        i += 1;
    }
    proof {
        assert(a@ =~= b@);
    }
    true
}

/// The priority a label names, if any.
fn parse_priority(v: &Vec<char>) -> (r: Option<Priority>)
    ensures
        r == spec_parse_priority(v@),
{
    let high = Priority::High.label_chars();
    let med = Priority::Medium.label_chars();
    let low = Priority::Low.label_chars();
    if chars_eq(v, &high) {
        Some(Priority::High)
    } else if chars_eq(v, &med) {
        Some(Priority::Medium)
    } else if chars_eq(v, &low) {
        Some(Priority::Low)
    } else {
        None
    }
}

/// The characters of the key `name`.
fn name_key() -> (v: Vec<char>)
    ensures
        v@ == seq!['n', 'a', 'm', 'e'],
{
    let mut v: Vec<char> = Vec::new();
    v.push('n');
    v.push('a');
    v.push('m');
    v.push('e');
    proof {
        assert(v@ =~= seq!['n', 'a', 'm', 'e']);
    }
    v
}

/// The characters of the key `priority`.
fn priority_key() -> (v: Vec<char>)
    ensures
        v@ == seq!['p', 'r', 'i', 'o', 'r', 'i', 't', 'y'],
{
    let mut v: Vec<char> = Vec::new();
    v.push('p');
    v.push('r');
    v.push('i');
    v.push('o');
    v.push('r');
    v.push('i');
    v.push('t');
    v.push('y');
    proof {
        assert(v@ =~= seq!['p', 'r', 'i', 'o', 'r', 'i', 't', 'y']);
    }
    v
}

/// Parses one task object, starting at its opening brace.
fn parse_task(s: &[char]) -> (r: Option<(Task, &[char])>)
    ensures
        (match r {
            Some(p) => spec_parse_task(s@) == Some((p.0@, p.1@)),
            None => spec_parse_task(s@) is None,
        }),
{
    if s.len() == 0 {
        return None;
    }
    if s[0] != '{' {
        return None;
    }
    let (_, s0) = s.split_at(1);
    proof {
        assert(s0@ =~= s@.drop_first());
    }
    let s1 = skip_ws_slice(s0);
    let (k1, s2) = match parse_string(s1) {
        Some(p) => p,
        None => {
            return None;
        },
    };
    let nk = name_key();
    if !chars_eq(&k1, &nk) {
        return None;
    }
    let s3 = skip_ws_slice(s2);
    if s3.len() == 0 {
        return None;
    }
    if s3[0] != ':' {
        return None;
    }
    let (_, s3d) = s3.split_at(1);
    proof {
        assert(s3d@ =~= s3@.drop_first());
    }
    let s4 = skip_ws_slice(s3d);
    let (nm, s5) = match parse_string(s4) {
        Some(p) => p,
        None => {
            return None;
        },
    };
    let s6 = skip_ws_slice(s5);
    if s6.len() == 0 {
        return None;
    }
    if s6[0] != ',' {
        return None;
    }
    let (_, s6d) = s6.split_at(1);
    proof {
        assert(s6d@ =~= s6@.drop_first());
    }
    let s7 = skip_ws_slice(s6d);
    let (k2, s8) = match parse_string(s7) {
        Some(p) => p,
        None => {
            return None;
        },
    };
    let pk = priority_key();
    if !chars_eq(&k2, &pk) {
        return None;
    }
    let s9 = skip_ws_slice(s8);
    if s9.len() == 0 {
        return None;
    }
    if s9[0] != ':' {
        return None;
    }
    let (_, s9d) = s9.split_at(1);
    proof {
        assert(s9d@ =~= s9@.drop_first());
    }
    let s10 = skip_ws_slice(s9d);
    let (pv, s11) = match parse_string(s10) {
        Some(p) => p,
        None => {
            return None;
        },
    };
    let p = match parse_priority(&pv) {
        Some(p) => p,
        None => {
            return None;
        },
    };
    let s12 = skip_ws_slice(s11);
    if s12.len() == 0 {
        return None;
    }
    if s12[0] != '}' {
        return None;
    }
    let (_, s12d) = s12.split_at(1);
    proof {
        assert(s12d@ =~= s12@.drop_first());
    }
    let t = Task { name: chars_to_string(&nm), priority: p };
    proof {
        assert(t@ == TaskSpec { name: nm@, priority: p });
    }
    Some((t, s12d))
}

/// Parses one or more comma-separated task objects up to and over the
/// array's closing bracket.
fn parse_items(s: &[char]) -> (r: Option<(Vec<Task>, &[char])>)
    ensures
        (match r {
            Some(p) => spec_parse_items(s@) == Some((task_views(p.0@), p.1@)),
            None => spec_parse_items(s@) is None,
        }),
    decreases s@.len(),
{
    let ss = skip_ws_slice(s);
    let (t, rest) = match parse_task(ss) {
        Some(p) => p,
        None => {
            return None;
        },
    };
    let r1 = skip_ws_slice(rest);
    if r1.len() == 0 {
        return None;
    }
    let c = r1[0];
    if c == ']' {
        let (_, r2) = r1.split_at(1);
        proof {
            assert(r2@ =~= r1@.drop_first());
        }
        let mut out: Vec<Task> = Vec::new();
        out.push(t);
        proof {
            assert(task_views(out@) =~= seq![out@[0]@]);
        }
        return Some((out, r2));
    }
    if c == ',' {
        let (_, r1d) = r1.split_at(1);
        proof {
            assert(r1d@ =~= r1@.drop_first());
            lemma_skip_ws_len(s@);
            lemma_parse_task_len(ss@);
            lemma_skip_ws_len(rest@);
        }
        match parse_items(r1d) {
            Some((mut ts, r2)) => {
                let ghost tsprev = ts@;
                ts.insert(0, t);
                proof {
                    assert(ts@ =~= seq![ts@[0]] + tsprev);
                    assert(task_views(ts@) =~= seq![ts@[0]@] + task_views(tsprev));
                }
                Some((ts, r2))
            },
            None => None,
        }
    } else {
        None
    }
}

/// Parses a persisted text back into tasks. `Ok` exactly on the texts the
/// persistence grammar accepts — a JSON array of task objects surrounded
/// by nothing but whitespace — with the tasks in array order; `Err` on
/// every other text.
pub fn tasks_from_json(text: &str) -> (r: Result<Vec<Task>, JsonError>)
    ensures
        (match r {
            Ok(v) => spec_parse_tasks(text@) == Some(task_views(v@)),
            Err(_) => spec_parse_tasks(text@) is None,
        }),
{
    let chars = string_to_chars(text);
    let s = chars.as_slice();
    let s1 = skip_ws_slice(s);
    if s1.len() == 0 {
        return Err(JsonError::Malformed);
    }
    if s1[0] != '[' {
        return Err(JsonError::Malformed);
    }
    let (_, s1d) = s1.split_at(1);
    proof {
        assert(s1d@ =~= s1@.drop_first());
    }
    let s2 = skip_ws_slice(s1d);
    if s2.len() > 0 && s2[0] == ']' {
        let (_, s2d) = s2.split_at(1);
        proof {
            assert(s2d@ =~= s2@.drop_first());
        }
        let s3 = skip_ws_slice(s2d);
        if s3.len() == 0 {
            let out: Vec<Task> = Vec::new();
            proof {
                assert(task_views(out@) =~= Seq::<TaskSpec>::empty());
            }
            return Ok(out);
        }
        return Err(JsonError::Malformed);
    }
    match parse_items(s1d) {
        Some((ts, rest)) => {
            let r2 = skip_ws_slice(rest);
            if r2.len() == 0 {
                Ok(ts)
            } else {
                Err(JsonError::Malformed)
            }
        },
        None => Err(JsonError::Malformed),
    }
}

} // verus!
