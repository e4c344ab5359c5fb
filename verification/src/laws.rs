//! The library's laws: what holds of every store and of the persistence
//! round trip, proved once and for all.

use vstd::prelude::*;
use crate::task::{TaskSpec, Priority};
use crate::store::{contains_id, remove_id, get_of, unique_ids, index_of_id};
use crate::json::{
    escape, escape_char, escape_code, hex_digit, hex_val, is_hex, char_of, json_of_task,
    json_of_items, json_of_tasks, skip_ws, spec_parse_string_body, spec_parse_string,
    spec_parse_priority, spec_parse_task, spec_parse_items, spec_parse_tasks, lemma_char_of_code,
};

verus! {

// ------------------------------------------------------------------
// Store laws
// ------------------------------------------------------------------

/// The store contents after a row of insertions, each appended in turn.
pub open spec fn after_adds(
    s: Seq<(u128, TaskSpec)>,
    pairs: Seq<(u128, TaskSpec)>,
) -> Seq<(u128, TaskSpec)>
    decreases pairs.len(),
{
    if pairs.len() == 0 {
        s
    } else {
        after_adds(s.push(pairs[0]), pairs.drop_first())
    }
}

/// Law: a row of adds, each under an identifier distinct from every other
/// and from everything already stored (as `add_task` guarantees at each
/// turn), grows the store by exactly one entry per add and keeps all
/// identifiers pairwise distinct.
pub proof fn lemma_sequence_of_adds(s: Seq<(u128, TaskSpec)>, pairs: Seq<(u128, TaskSpec)>)
    requires
        unique_ids(s),
        forall|i: int, j: int| 0 <= i < j < pairs.len() ==> pairs[i].0 != pairs[j].0,
        forall|i: int| 0 <= i < pairs.len() ==> !contains_id(s, #[trigger] pairs[i].0),
    ensures
        after_adds(s, pairs).len() == s.len() + pairs.len(),
        unique_ids(after_adds(s, pairs)),
    decreases pairs.len(),
{
    if pairs.len() == 0 {
    } else {
        let s2 = s.push(pairs[0]);
        assert forall|a: int, b: int| 0 <= a < b < s2.len() implies s2[a].0 != s2[b].0 by {
            if b < s.len() {
                assert(s2[a] == s[a] && s2[b] == s[b]);
            } else {
                assert(s2[b] == pairs[0]);
                assert(s2[a] == s[a]);
                if s[a].0 == pairs[0].0 {
                    assert(contains_id(s, pairs[0].0));
                }
            }
        }
        let rest = pairs.drop_first();
        assert forall|i: int| 0 <= i < rest.len() implies !contains_id(
            s2,
            #[trigger] rest[i].0,
        ) by {
            assert(rest[i] == pairs[i + 1]);
            if contains_id(s2, rest[i].0) {
                let k = choose|k: int| 0 <= k < s2.len() && s2[k].0 == rest[i].0;
                if k < s.len() {
                    assert(s[k].0 == pairs[i + 1].0);
                    assert(contains_id(s, pairs[i + 1].0));
                } else {
                    assert(s2[k] == pairs[0]);
                    assert(pairs[0].0 == pairs[i + 1].0);
                }
            }
        }
        lemma_sequence_of_adds(s2, rest);
    }
}

/// Law: removing a task by its keyed reference, then looking up its
/// identifier, finds nothing.
pub proof fn lemma_remove_then_get(s: Seq<(u128, TaskSpec)>, id: u128)
    requires
        unique_ids(s),
    ensures
        get_of(remove_id(s, id), id) is None,
{
    if contains_id(s, id) {
        let i = index_of_id(s, id);
        assert(0 <= i < s.len() && s[i].0 == id);
        let r = remove_id(s, id);
        assert(r == s.subrange(0, i) + s.subrange(i + 1, s.len() as int));
        assert(!contains_id(r, id)) by {
            if contains_id(r, id) {
                let k = choose|k: int| 0 <= k < r.len() && r[k].0 == id;
                if k < i {
                    assert(r[k] == s[k]);
                    assert(s[k].0 != s[i].0);
                } else {
                    assert(r[k] == s[k + 1]);
                    assert(s[i].0 != s[k + 1].0);
                }
            }
        }
    } else {
        assert(remove_id(s, id) == s);
    }
}

/// Law: removing an identifier no entry carries is a no-op: the store is
/// unchanged, in particular its size.
pub proof fn lemma_remove_absent(s: Seq<(u128, TaskSpec)>, id: u128)
    requires
        !contains_id(s, id),
    ensures
        remove_id(s, id) == s,
        remove_id(s, id).len() == s.len(),
{
}

// ------------------------------------------------------------------
// Round trip of the persistence format
// ------------------------------------------------------------------

/// A character the escaper writes as itself.
pub open spec fn plain_char(c: char) -> bool {
    c != '"' && c != '\\' && (c as u32) >= 0x20
}

/// Escaping a text of plain characters changes nothing.
proof fn lemma_escape_plain(s: Seq<char>)
    requires
        forall|i: int| 0 <= i < s.len() ==> plain_char(#[trigger] s[i]),
    ensures
        escape(s) == s,
    decreases s.len(),
{
    if s.len() == 0 {
        assert(escape(s) =~= s);
    } else {
        lemma_escape_plain(s.drop_first());
        assert(plain_char(s[0]));
        assert(escape_char(s[0]) =~= seq![s[0]]);
        assert(seq![s[0]] + s.drop_first() =~= s);
    }
}

/// A hexadecimal digit written for a value below sixteen reads back as
/// that value.
proof fn lemma_hex_round(n: int)
    requires
        0 <= n < 16,
    ensures
        is_hex(hex_digit(n)),
        hex_val(hex_digit(n)) == n,
{
}

/// Reading an escaped text: the string-body parser decodes the escape of
/// any text, up to and over the closing quote, to exactly that text.
proof fn lemma_parse_escaped(name: Seq<char>, rest: Seq<char>)
    ensures
        spec_parse_string_body(escape(name) + seq!['"'] + rest) == Some((name, rest)),
    decreases name.len(),
{
    let s = escape(name) + seq!['"'] + rest;
    if name.len() == 0 {
        assert(escape(name) =~= Seq::<char>::empty());
        assert(s =~= seq!['"'] + rest);
        assert(s[0] == '"');
        assert(s.drop_first() =~= rest);
        assert(name =~= Seq::<char>::empty());
    } else {
        let c = name[0];
        let tail = escape(name.drop_first()) + seq!['"'] + rest;
        lemma_parse_escaped(name.drop_first(), rest);
        assert(escape(name) == escape_char(c) + escape(name.drop_first()));
        assert(s =~= escape_char(c) + tail);
        assert(seq![c] + name.drop_first() =~= name);
        if c == '"' {
            assert(escape_char(c) =~= seq!['\\', '"']);
            assert(s.len() >= 2);
            assert(s[0] == '\\' && s[1] == '"');
            assert(escape_code('"') == Some('"'));
            assert(s.skip(2) =~= tail);
            assert(spec_parse_string_body(s) == Some((name, rest)));
        } else if c == '\\' {
            assert(escape_char(c) =~= seq!['\\', '\\']);
            assert(s.len() >= 2);
            assert(s[0] == '\\' && s[1] == '\\');
            assert(escape_code('\\') == Some('\\'));
            assert(s.skip(2) =~= tail);
            assert(spec_parse_string_body(s) == Some((name, rest)));
        } else if (c as u32) < 0x20 {
            let code = (c as u32) as int;
            assert(escape_char(c) =~= seq!['\\', 'u', '0', '0', hex_digit(code / 16), hex_digit(
                code % 16,
            )]);
            assert(s.len() >= 6);
            assert(s[0] == '\\' && s[1] == 'u');
            assert(s[2] == '0' && s[3] == '0');
            assert(s[4] == hex_digit(code / 16) && s[5] == hex_digit(code % 16));
            assert(hex_val('0') == 0);
            lemma_hex_round(code / 16);
            lemma_hex_round(code % 16);
            assert(hex_val(s[2]) * 4096 + hex_val(s[3]) * 256 + hex_val(s[4]) * 16 + hex_val(s[5])
                == code);
            assert(!(0xD800 <= code && code < 0xE000));
            assert(s.skip(6) =~= tail);
            lemma_char_of_code(c);
            assert(code as u32 == c as u32);
            assert(char_of(code as u32) == c);
            assert(spec_parse_string_body(s) == Some((name, rest)));
        } else {
            assert(escape_char(c) =~= seq![c]);
            assert(s[0] == c);
            assert(s[0] != '"' && s[0] != '\\' && (s[0] as u32) >= 0x20);
            assert(s.drop_first() =~= tail);
            assert(spec_parse_string_body(s) == Some((name, rest)));
        }
    }
}

/// Reading a whole quoted string: quotes around an escaped text parse to
/// exactly that text.
proof fn lemma_parse_quoted(name: Seq<char>, rest: Seq<char>)
    ensures
        spec_parse_string(seq!['"'] + escape(name) + seq!['"'] + rest) == Some((name, rest)),
{
    let s = seq!['"'] + escape(name) + seq!['"'] + rest;
    assert(s[0] == '"');
    assert(s.drop_first() =~= escape(name) + seq!['"'] + rest);
    lemma_parse_escaped(name, rest);
}

/// The priority labels are plain and read back as their priority.
proof fn lemma_label_plain(p: Priority)
    ensures
        forall|i: int|
            0 <= i < p.spec_label().len() ==> plain_char(#[trigger] p.spec_label()[i]),
        spec_parse_priority(p.spec_label()) == Some(p),
{
    match p {
        Priority::High => {
            assert(Priority::High.spec_label() =~= seq!['H', 'i', 'g', 'h']);
        },
        Priority::Medium => {
            assert(Priority::Medium.spec_label() != Priority::High.spec_label()) by {
                assert(Priority::Medium.spec_label().len() != Priority::High.spec_label().len());
            }
        },
        Priority::Low => {
            assert(Priority::Low.spec_label() != Priority::High.spec_label()) by {
                assert(Priority::Low.spec_label().len() != Priority::High.spec_label().len());
            }
            assert(Priority::Low.spec_label() != Priority::Medium.spec_label()) by {
                assert(Priority::Low.spec_label().len() != Priority::Medium.spec_label().len());
            }
        },
    }
}

/// Reading one serialized task object back gives exactly that task.
#[verifier::rlimit(100)]
proof fn lemma_parse_task_round(t: TaskSpec, rest: Seq<char>)
    ensures
        spec_parse_task(json_of_task(t) + rest) == Some((t, rest)),
{
    let key1: Seq<char> = seq!['n', 'a', 'm', 'e'];
    let key2: Seq<char> = seq!['p', 'r', 'i', 'o', 'r', 'i', 't', 'y'];
    let label = t.priority.spec_label();
    lemma_label_plain(t.priority);
    assert(forall|i: int| 0 <= i < key1.len() ==> plain_char(#[trigger] key1[i]));
    assert(forall|i: int| 0 <= i < key2.len() ==> plain_char(#[trigger] key2[i]));
    lemma_escape_plain(key1);
    lemma_escape_plain(key2);
    lemma_escape_plain(label);

    let s = json_of_task(t) + rest;
    let r4 = seq!['}'] + rest;
    let r3 = seq!['"'] + label + seq!['"'] + r4;
    let a3 = seq![':'] + r3;
    let r2 = seq!['"'] + key2 + seq!['"'] + a3;
    let a2 = seq![','] + r2;
    let r1 = seq!['"'] + escape(t.name) + seq!['"'] + a2;
    let a1 = seq![':'] + r1;
    let r0 = seq!['"'] + key1 + seq!['"'] + a1;

    assert(s.len() > 0);
    assert(s[0] == '{');
    assert(s.drop_first() =~= r0);
    assert(skip_ws(r0) == r0);

    assert(r0 =~= seq!['"'] + escape(key1) + seq!['"'] + a1);
    lemma_parse_quoted(key1, a1);
    assert(spec_parse_string(r0) == Some((key1, a1)));

    assert(skip_ws(a1) == a1);
    assert(a1[0] == ':');
    assert(a1.drop_first() =~= r1);
    assert(skip_ws(r1) == r1);
    lemma_parse_quoted(t.name, a2);
    assert(spec_parse_string(r1) == Some((t.name, a2)));

    assert(skip_ws(a2) == a2);
    assert(a2[0] == ',');
    assert(a2.drop_first() =~= r2);
    assert(skip_ws(r2) == r2);
    assert(r2 =~= seq!['"'] + escape(key2) + seq!['"'] + a3);
    lemma_parse_quoted(key2, a3);
    assert(spec_parse_string(r2) == Some((key2, a3)));

    assert(skip_ws(a3) == a3);
    assert(a3[0] == ':');
    assert(a3.drop_first() =~= r3);
    assert(skip_ws(r3) == r3);
    assert(r3 =~= seq!['"'] + escape(label) + seq!['"'] + r4);
    lemma_parse_quoted(label, r4);
    assert(spec_parse_string(r3) == Some((label, r4)));
    assert(spec_parse_priority(label) == Some(t.priority));

    assert(skip_ws(r4) == r4);
    assert(r4[0] == '}');
    assert(r4.drop_first() =~= rest);
    assert(TaskSpec { name: t.name, priority: t.priority } =~= t);
    assert(spec_parse_task(s) == Some((t, rest)));
}

/// Reading serialized items back, up to the closing bracket, gives
/// exactly the serialized row.
proof fn lemma_parse_items_round(ts: Seq<TaskSpec>, rest: Seq<char>)
    requires
        ts.len() >= 1,
    ensures
        spec_parse_items(json_of_items(ts) + seq![']'] + rest) == Some((ts, rest)),
    decreases ts.len(),
{
    let s = json_of_items(ts) + seq![']'] + rest;
    if ts.len() == 1 {
        assert(json_of_items(ts) == json_of_task(ts[0]));
        let tail = seq![']'] + rest;
        assert(s =~= json_of_task(ts[0]) + tail);
        lemma_parse_task_round(ts[0], tail);
        assert(s[0] == '{');
        assert(skip_ws(s) == s);
        assert(spec_parse_task(s) == Some((ts[0], tail)));
        assert(skip_ws(tail) == tail);
        assert(tail[0] == ']');
        assert(tail.drop_first() =~= rest);
        assert(seq![ts[0]] =~= ts);
        assert(spec_parse_items(s) == Some((ts, rest)));
    } else {
        let tail = seq![','] + (json_of_items(ts.drop_first()) + seq![']'] + rest);
        assert(s =~= json_of_task(ts[0]) + tail);
        lemma_parse_task_round(ts[0], tail);
        assert(s[0] == '{');
        assert(skip_ws(s) == s);
        assert(spec_parse_task(s) == Some((ts[0], tail)));
        assert(skip_ws(tail) == tail);
        assert(tail[0] == ',');
        assert(tail[0] != ']');
        assert(tail.drop_first() =~= json_of_items(ts.drop_first()) + seq![']'] + rest);
        lemma_parse_items_round(ts.drop_first(), rest);
        assert(seq![ts[0]] + ts.drop_first() =~= ts);
        assert(spec_parse_items(s) == Some((ts, rest)));
    }
}

/// Law: the persistence round trip is exact. Parsing the serialized text
/// of any task row yields that row back, entry for entry — so in
/// particular the same multiset of (name, priority) pairs. Identifiers
/// are not persisted and take no part in the format.
pub proof fn lemma_save_load_round_trip(ts: Seq<TaskSpec>)
    ensures
        spec_parse_tasks(json_of_tasks(ts)) == Some(ts),
{
    let text = json_of_tasks(ts);
    if ts.len() == 0 {
        assert(text =~= seq!['[', ']']);
        assert(skip_ws(text) == text);
        assert(text[0] == '[');
        assert(text.drop_first() =~= seq![']']);
        assert(skip_ws(seq![']']) == seq![']']);
        assert(seq![']'][0] == ']');
        assert(seq![']'].drop_first() =~= Seq::<char>::empty());
        assert(skip_ws(Seq::<char>::empty()).len() == 0);
        assert(ts =~= Seq::<TaskSpec>::empty());
    } else {
        assert(text =~= seq!['['] + json_of_items(ts) + seq![']']);
        assert(skip_ws(text) == text);
        assert(text[0] == '[');
        let inner = json_of_items(ts) + seq![']'];
        assert(text.drop_first() =~= inner);
        assert(json_of_task(ts[0])[0] == '{');
        assert(inner[0] == '{');
        assert(skip_ws(inner) == inner);
        assert(inner[0] != ']');
        lemma_parse_items_round(ts, Seq::<char>::empty());
        assert(inner =~= json_of_items(ts) + seq![']'] + Seq::<char>::empty());
        assert(spec_parse_items(inner) == Some((ts, Seq::<char>::empty())));
        assert(skip_ws(Seq::<char>::empty()).len() == 0);
    }
}

} // verus!
