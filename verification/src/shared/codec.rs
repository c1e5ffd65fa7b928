//! The persisted text format: a JSON document of the form
//! `{"items":[{"id":1,"title":"t","done":false}],"next_id":2}`.
//! `render_todos` produces exactly this canonical text, escaping quotes,
//! backslashes and control characters; `parse_todos` reads it back, also
//! tolerating blanks between tokens and the standard string escapes, and
//! rejects anything else; `load_todos_str` additionally falls back to a fresh
//! empty list when the text is not a well-formed task list.

use vstd::prelude::*;
use vstd::string::StrSliceExecFns;
use vstd::string::StringExecFns;
use crate::shared::num::{
    acc_val, dec_seq, digit_val, hex_digit, hex_val, is_dec_digit, is_hex_digit, lemma_hex_digit,
    u64_to_string,
};
use crate::shared::todo::{ListModel, TaskModel, Todo, TodoList, empty_model, tasks_view};

verus! {

/// How one title character is written inside the quotes: a quote or a
/// backslash gets a backslash in front, the common control characters get
/// their letter escapes, the remaining control characters a four-digit
/// hexadecimal escape, and everything else stands as itself.
pub open spec fn esc_char(c: char) -> Seq<char> {
    if c == '"' || c == '\\' {
        seq!['\\', c]
    } else if c == '\n' {
        seq!['\\', 'n']
    } else if c == '\r' {
        seq!['\\', 'r']
    } else if c == '\t' {
        seq!['\\', 't']
    } else if c == '\u{8}' {
        seq!['\\', 'b']
    } else if c == '\u{C}' {
        seq!['\\', 'f']
    } else if (c as int) < 0x20 {
        seq!['\\', 'u', '0', '0'] + seq![hex_digit((c as int / 16) as nat)] + seq![
            hex_digit((c as int % 16) as nat),
        ]
    } else {
        seq![c]
    }
}

/// How a whole title is written inside the quotes.
pub open spec fn escape(s: Seq<char>) -> Seq<char>
    decreases s.len(),
{
    if s.len() == 0 {
        Seq::empty()
    } else {
        esc_char(s[0]) + escape(s.drop_first())
    }
}

/// Escaping a concatenation escapes the parts.
pub proof fn lemma_escape_concat(a: Seq<char>, b: Seq<char>)
    ensures
        escape(a + b) == escape(a) + escape(b),
    decreases a.len(),
{
    if a.len() == 0 {
        assert(a + b =~= b);
        assert(escape(a) + escape(b) =~= escape(b));
    } else {
        assert((a + b).drop_first() =~= a.drop_first() + b);
        lemma_escape_concat(a.drop_first(), b);
        assert(escape(a + b) =~= escape(a) + escape(b));
    }
}

/// The text for `true` or `false`.
pub open spec fn render_bool(b: bool) -> Seq<char> {
    if b {
        "true"@
    } else {
        "false"@
    }
}

/// The text for one task.
pub open spec fn render_task(t: TaskModel) -> Seq<char> {
    "{\"id\":"@ + dec_seq(t.id as nat) + ",\"title\":\""@ + escape(t.title) + "\",\"done\":"@
        + render_bool(t.done) + "}"@
}

/// The text for a sequence of tasks, comma separated.
pub open spec fn render_tasks(items: Seq<TaskModel>) -> Seq<char>
    decreases items.len(),
{
    if items.len() == 0 {
        Seq::empty()
    } else if items.len() == 1 {
        render_task(items[0])
    } else {
        render_task(items[0]) + seq![','] + render_tasks(items.drop_first())
    }
}

/// Appending a task appends its text, after a comma when tasks precede it.
pub proof fn lemma_render_tasks_push(items: Seq<TaskModel>, t: TaskModel)
    ensures
        items.len() == 0 ==> render_tasks(items.push(t)) == render_task(t),
        items.len() > 0 ==> render_tasks(items.push(t)) == render_tasks(items) + seq![',']
            + render_task(t),
    decreases items.len(),
{
    if items.len() == 0 {
        assert(items.push(t)[0] == t);
        assert(render_tasks(items.push(t)) == render_task(t));
    } else {
        assert(items.push(t).drop_first() =~= items.drop_first().push(t));
        lemma_render_tasks_push(items.drop_first(), t);
        assert(render_tasks(items.push(t)) =~= render_tasks(items) + seq![','] + render_task(t));
    }
}

/// The whole persisted document.
pub open spec fn render_model(m: ListModel) -> Seq<char> {
    "{\"items\":["@ + render_tasks(m.items) + "],\"next_id\":"@ + dec_seq(m.next_id as nat) + "}"@
}

/// Parsing: each `sp_*` function reads one construct at position `pos` of `s`
/// and yields the value read and the position just past it, or nothing when
/// the text does not have the expected shape there.
///
/// The blanks the reader may put between tokens.
pub open spec fn is_json_ws(c: char) -> bool {
    c == ' ' || c == '\t' || c == '\n' || c == '\r'
}

/// The first position at or after `pos` that does not hold a blank.
pub open spec fn skip_ws(s: Seq<char>, pos: int) -> int
    decreases s.len() - pos,
{
    if 0 <= pos < s.len() && is_json_ws(s[pos]) {
        skip_ws(s, pos + 1)
    } else {
        pos
    }
}

/// Skipping blanks moves forward and stays within the text.
proof fn lemma_skip_ws_bounds(s: Seq<char>, pos: int)
    ensures
        skip_ws(s, pos) >= pos,
        pos <= s.len() ==> skip_ws(s, pos) <= s.len(),
    decreases s.len() - pos,
{
    if 0 <= pos < s.len() && is_json_ws(s[pos]) {
        lemma_skip_ws_bounds(s, pos + 1);
    }
}

/// A fixed piece of text, read at exactly `pos`.
pub open spec fn sp_lit(s: Seq<char>, pos: int, lit: Seq<char>) -> Option<int> {
    if 0 <= pos && pos + lit.len() <= s.len() && s.subrange(pos, pos + lit.len()) == lit {
        Some(pos + lit.len())
    } else {
        None
    }
}

/// A fixed token, blanks before it allowed.
pub open spec fn sp_tok(s: Seq<char>, pos: int, lit: Seq<char>) -> Option<int> {
    sp_lit(s, skip_ws(s, pos), lit)
}

/// A token read anywhere moves past its own text and stays within it.
proof fn lemma_sp_tok_bounds(s: Seq<char>, pos: int, lit: Seq<char>)
    ensures
        sp_tok(s, pos, lit) matches Some(p) ==> 0 <= pos && pos + lit.len() <= p && p <= s.len(),
{
    lemma_skip_ws_bounds(s, pos);
}

/// The maximal digit run starting at `pos`, folded into `acc`; fails when the
/// value leaves `u64`.
pub open spec fn sp_num_rec(s: Seq<char>, pos: int, acc: nat) -> Option<(u64, int)>
    decreases s.len() - pos,
{
    if pos < s.len() && is_dec_digit(s[pos]) {
        if acc * 10 + digit_val(s[pos]) <= u64::MAX {
            sp_num_rec(s, pos + 1, acc * 10 + digit_val(s[pos]))
        } else {
            None
        }
    } else {
        Some((acc as u64, pos))
    }
}

/// A number: at least one digit, read greedily.
pub open spec fn sp_num(s: Seq<char>, pos: int) -> Option<(u64, int)> {
    if 0 <= pos < s.len() && is_dec_digit(s[pos]) {
        sp_num_rec(s, pos, 0)
    } else {
        None
    }
}

/// The character a letter escape denotes; `u` escapes are read separately,
/// and any other character after the backslash stands for itself, which
/// covers `\"`, `\\` and `\/`.
pub open spec fn named_escape(e: char) -> Option<char> {
    if e == 'u' {
        None
    } else if e == 'n' {
        Some('\n')
    } else if e == 'r' {
        Some('\r')
    } else if e == 't' {
        Some('\t')
    } else if e == 'b' {
        Some('\u{8}')
    } else if e == 'f' {
        Some('\u{C}')
    } else {
        Some(e)
    }
}

/// A scalar value a four-digit escape may denote: anything but a surrogate.
pub open spec fn valid_scalar(v: int) -> bool {
    (0 <= v && v < 0xD800) || (0xE000 <= v && v <= 0x10FFFF)
}

/// A character's scalar value.
pub open spec fn char_code(c: char) -> int {
    c as int
}

/// The value of the four hexadecimal digits at `p`.
pub open spec fn hex4val(s: Seq<char>, p: int) -> int {
    (((hex_val(s[p]) * 16 + hex_val(s[p + 1])) * 16 + hex_val(s[p + 2])) * 16 + hex_val(
        s[p + 3],
    )) as int
}

/// The character with the scalar value `v`.
pub open spec fn scalar_char(v: int) -> char {
    choose|c: char| char_code(c) == v
}

/// A title, read up to and including the closing quote. A backslash starts an
/// escape: `u` followed by four hexadecimal digits names a character by its
/// scalar value, the letter escapes stand for their control characters, and
/// any other character stands for itself.
pub open spec fn sp_str(s: Seq<char>, pos: int) -> Option<(Seq<char>, int)>
    decreases s.len() - pos,
{
    if pos < 0 || pos >= s.len() {
        None
    } else if s[pos] == '"' {
        Some((Seq::empty(), pos + 1))
    } else if s[pos] == '\\' {
        if pos + 1 < s.len() {
            if s[pos + 1] == 'u' {
                if pos + 6 <= s.len() && is_hex_digit(s[pos + 2]) && is_hex_digit(s[pos + 3])
                    && is_hex_digit(s[pos + 4]) && is_hex_digit(s[pos + 5]) {
                    if valid_scalar(hex4val(s, pos + 2)) {
                        match sp_str(s, pos + 6) {
                            Some((t, p)) => Some((seq![scalar_char(hex4val(s, pos + 2))] + t, p)),
                            None => None,
                        }
                    } else {
                        None
                    }
                } else {
                    None
                }
            } else {
                match named_escape(s[pos + 1]) {
                    Some(c) => match sp_str(s, pos + 2) {
                        Some((t, p)) => Some((seq![c] + t, p)),
                        None => None,
                    },
                    None => None,
                }
            }
        } else {
            None
        }
    } else {
        match sp_str(s, pos + 1) {
            Some((t, p)) => Some((seq![s[pos]] + t, p)),
            None => None,
        }
    }
}

/// `true` or `false`.
pub open spec fn sp_bool(s: Seq<char>, pos: int) -> Option<(bool, int)> {
    match sp_tok(s, pos, "true"@) {
        Some(p) => Some((true, p)),
        None => match sp_tok(s, pos, "false"@) {
            Some(p) => Some((false, p)),
            None => None,
        },
    }
}

/// One task: `{"id":N,"title":"T","done":B}`, blanks between tokens allowed.
pub open spec fn sp_task(s: Seq<char>, pos: int) -> Option<(TaskModel, int)> {
    match sp_tok(s, pos, "{"@) {
        None => None,
        Some(p1) => match sp_tok(s, p1, "\"id\""@) {
            None => None,
            Some(p2) => match sp_tok(s, p2, ":"@) {
                None => None,
                Some(p3) => match sp_num(s, skip_ws(s, p3)) {
                    None => None,
                    Some((id, p4)) => match sp_tok(s, p4, ","@) {
                        None => None,
                        Some(p5) => match sp_tok(s, p5, "\"title\""@) {
                            None => None,
                            Some(p6) => match sp_tok(s, p6, ":"@) {
                                None => None,
                                Some(p7) => match sp_tok(s, p7, "\""@) {
                                    None => None,
                                    Some(p8) => match sp_str(s, p8) {
                                        None => None,
                                        Some((title, p9)) => match sp_tok(s, p9, ","@) {
                                            None => None,
                                            Some(p10) => match sp_tok(s, p10, "\"done\""@) {
                                                None => None,
                                                Some(p11) => match sp_tok(s, p11, ":"@) {
                                                    None => None,
                                                    Some(p12) => match sp_bool(s, p12) {
                                                        None => None,
                                                        Some((done, p13)) => match sp_tok(
                                                            s,
                                                            p13,
                                                            "}"@,
                                                        ) {
                                                            None => None,
                                                            Some(p14) => Some(
                                                                (TaskModel { id, title, done }, p14),
                                                            ),
                                                        },
                                                    },
                                                },
                                            },
                                        },
                                    },
                                },
                            },
                        },
                    },
                },
            },
        },
    }
}

/// A number read at a sane position stays within the text.
proof fn lemma_sp_num_rec_bounds(s: Seq<char>, pos: int, acc: nat)
    requires
        0 <= pos <= s.len(),
    ensures
        sp_num_rec(s, pos, acc) matches Some((v, p)) ==> pos <= p <= s.len(),
    decreases s.len() - pos,
{
    if pos < s.len() && is_dec_digit(s[pos]) && acc * 10 + digit_val(s[pos]) <= u64::MAX {
        lemma_sp_num_rec_bounds(s, pos + 1, acc * 10 + digit_val(s[pos]));
    }
}

/// A title read anywhere moves forward and stays within the text.
proof fn lemma_sp_str_bounds(s: Seq<char>, pos: int)
    ensures
        sp_str(s, pos) matches Some((t, p)) ==> pos < p <= s.len(),
    decreases s.len() - pos,
{
    if 0 <= pos < s.len() {
        if s[pos] == '\\' {
            if pos + 1 < s.len() {
                if s[pos + 1] == 'u' {
                    if pos + 6 <= s.len() {
                        lemma_sp_str_bounds(s, pos + 6);
                    }
                } else {
                    lemma_sp_str_bounds(s, pos + 2);
                }
            }
        } else if s[pos] != '"' {
            lemma_sp_str_bounds(s, pos + 1);
        }
    }
}

/// A task read anywhere moves forward and stays within the text.
proof fn lemma_sp_task_bounds(s: Seq<char>, pos: int)
    ensures
        sp_task(s, pos) matches Some((t, p)) ==> 0 <= pos < p <= s.len(),
{
    reveal_strlit("{");
    lemma_sp_tok_bounds(s, pos, "{"@);
    match sp_tok(s, pos, "{"@) {
        None => {},
        Some(p1) => {
            lemma_sp_tok_bounds(s, p1, "\"id\""@);
            match sp_tok(s, p1, "\"id\""@) {
                None => {},
                Some(p2) => {
                    lemma_sp_tok_bounds(s, p2, ":"@);
                    match sp_tok(s, p2, ":"@) {
                        None => {},
                        Some(p3) => {
                            lemma_skip_ws_bounds(s, p3);
                            lemma_sp_num_rec_bounds(s, skip_ws(s, p3), 0);
                            match sp_num(s, skip_ws(s, p3)) {
                                None => {},
                                Some((id, p4)) => {
                                    lemma_sp_tok_bounds(s, p4, ","@);
                                    match sp_tok(s, p4, ","@) {
                                        None => {},
                                        Some(p5) => {
                                            lemma_sp_tok_bounds(s, p5, "\"title\""@);
                                            match sp_tok(s, p5, "\"title\""@) {
                                                None => {},
                                                Some(p6) => {
                                                    lemma_sp_tok_bounds(s, p6, ":"@);
                                                    match sp_tok(s, p6, ":"@) {
                                                        None => {},
                                                        Some(p7) => {
                                                            lemma_sp_tok_bounds(s, p7, "\""@);
                                                            match sp_tok(s, p7, "\""@) {
                                                                None => {},
                                                                Some(p8) => {
                                                                    lemma_sp_str_bounds(s, p8);
                                                                    match sp_str(s, p8) {
                                                                        None => {},
                                                                        Some((title, p9)) => {
                                                                            lemma_rest_of_task_bounds(
                                                                                s,
                                                                                p9,
                                                                            );
                                                                        },
                                                                    }
                                                                },
                                                            }
                                                        },
                                                    }
                                                },
                                            }
                                        },
                                    }
                                },
                            }
                        },
                    }
                },
            }
        },
    }
}

/// The tail of a task after its title — the done flag and the closing brace —
/// moves forward and stays within the text.
proof fn lemma_rest_of_task_bounds(s: Seq<char>, p9: int)
    ensures
        (match sp_tok(s, p9, ","@) {
            Some(p10) => match sp_tok(s, p10, "\"done\""@) {
                Some(p11) => match sp_tok(s, p11, ":"@) {
                    Some(p12) => match sp_bool(s, p12) {
                        Some((done, p13)) => match sp_tok(s, p13, "}"@) {
                            Some(p14) => p9 <= p14 <= s.len(),
                            None => true,
                        },
                        None => true,
                    },
                    None => true,
                },
                None => true,
            },
            None => true,
        }),
{
    lemma_sp_tok_bounds(s, p9, ","@);
    match sp_tok(s, p9, ","@) {
        None => {},
        Some(p10) => {
            lemma_sp_tok_bounds(s, p10, "\"done\""@);
            match sp_tok(s, p10, "\"done\""@) {
                None => {},
                Some(p11) => {
                    lemma_sp_tok_bounds(s, p11, ":"@);
                    match sp_tok(s, p11, ":"@) {
                        None => {},
                        Some(p12) => {
                            lemma_sp_tok_bounds(s, p12, "true"@);
                            lemma_sp_tok_bounds(s, p12, "false"@);
                            match sp_bool(s, p12) {
                                None => {},
                                Some((done, p13)) => {
                                    lemma_sp_tok_bounds(s, p13, "}"@);
                                },
                            }
                        },
                    }
                },
            }
        },
    }
}

/// The comma separated task array, read from the first task up to and
/// including the closing bracket.
pub open spec fn sp_tasks(s: Seq<char>, pos: int) -> Option<(Seq<TaskModel>, int)>
    decreases s.len() - pos,
    via sp_tasks_decreases
{
    match sp_task(s, pos) {
        None => None,
        Some((t, p)) => {
            let q = skip_ws(s, p);
            if q < s.len() && s[q] == ',' {
                match sp_tasks(s, q + 1) {
                    Some((rest, p2)) => Some((seq![t] + rest, p2)),
                    None => None,
                }
            } else if q < s.len() && s[q] == ']' {
                Some((seq![t], q + 1))
            } else {
                None
            }
        },
    }
}

#[via_fn]
proof fn sp_tasks_decreases(s: Seq<char>, pos: int) {
    lemma_sp_task_bounds(s, pos);
    match sp_task(s, pos) {
        None => {},
        Some((t, p)) => {
            lemma_skip_ws_bounds(s, p);
        },
    }
}

/// The whole document: `{"items":[...],"next_id":N}`, with nothing but
/// blanks after it.
pub open spec fn sp_list(s: Seq<char>) -> Option<ListModel> {
    match sp_tok(s, 0, "{"@) {
        None => None,
        Some(p1) => match sp_tok(s, p1, "\"items\""@) {
            None => None,
            Some(p2) => match sp_tok(s, p2, ":"@) {
                None => None,
                Some(p3) => match sp_tok(s, p3, "["@) {
                    None => None,
                    Some(p4) => {
                        let q = skip_ws(s, p4);
                        let tasks = if q < s.len() && s[q] == ']' {
                            Some((Seq::<TaskModel>::empty(), q + 1))
                        } else {
                            sp_tasks(s, p4)
                        };
                        match tasks {
                            None => None,
                            Some((items, p5)) => match sp_tok(s, p5, ","@) {
                                None => None,
                                Some(p6) => match sp_tok(s, p6, "\"next_id\""@) {
                                    None => None,
                                    Some(p7) => match sp_tok(s, p7, ":"@) {
                                        None => None,
                                        Some(p8) => match sp_num(s, skip_ws(s, p8)) {
                                            None => None,
                                            Some((nid, p9)) => match sp_tok(s, p9, "}"@) {
                                                None => None,
                                                Some(p10) => if skip_ws(s, p10) == s.len() {
                                                    Some(ListModel { items, next_id: nid })
                                                } else {
                                                    None
                                                },
                                            },
                                        },
                                    },
                                },
                            },
                        }
                    },
                },
            },
        },
    }
}

/// What parsing accepts: the document above, provided the list it denotes
/// satisfies the invariant.
pub open spec fn parse_spec(s: Seq<char>) -> Option<ListModel> {
    match sp_list(s) {
        Some(m) => if m.wf() {
            Some(m)
        } else {
            None
        },
        None => None,
    }
}

/// What loading yields: the parsed list, or a fresh empty one when the text
/// is not a well-formed task list.
pub open spec fn load_model(s: Seq<char>) -> ListModel {
    match parse_spec(s) {
        Some(m) => m,
        None => empty_model(),
    }
}

/// A digit run embedded in a larger text parses to the value it denotes.
proof fn lemma_sp_num_rec_digits(s: Seq<char>, pos: int, ds: Seq<char>, acc: nat)
    requires
        0 <= pos,
        pos + ds.len() <= s.len(),
        s.subrange(pos, pos + ds.len()) == ds,
        forall|i: int| 0 <= i < ds.len() ==> is_dec_digit(ds[i]),
        pos + ds.len() == s.len() || !is_dec_digit(s[pos + ds.len()]),
        acc_val(acc, ds) <= u64::MAX,
    ensures
        sp_num_rec(s, pos, acc) == Some((acc_val(acc, ds) as u64, pos + ds.len())),
    decreases ds.len(),
{
    if ds.len() == 0 {
        assert(acc_val(acc, ds) == acc);
    } else {
        assert(s[pos] == ds[0]) by {
            assert(s.subrange(pos, pos + ds.len())[0] == s[pos]);
        }
        let acc2 = acc * 10 + digit_val(ds[0]);
        crate::shared::num::lemma_acc_val_lower(acc2, ds.drop_first());
        assert(acc_val(acc, ds) == acc_val(acc2, ds.drop_first()));
        assert(s.subrange(pos + 1, pos + 1 + ds.drop_first().len()) =~= ds.drop_first()) by {
            assert forall|i: int| 0 <= i < ds.drop_first().len() implies s.subrange(
                pos + 1,
                pos + 1 + ds.drop_first().len(),
            )[i] == ds.drop_first()[i] by {
                assert(s.subrange(pos, pos + ds.len())[i + 1] == s[pos + 1 + i]);
            }
        }
        lemma_sp_num_rec_digits(s, pos + 1, ds.drop_first(), acc2);
    }
}

/// The decimal rendering of `n`, followed by a non-digit, parses to `n`.
proof fn lemma_sp_num_at(s: Seq<char>, pos: int, n: nat)
    requires
        0 <= pos,
        pos + dec_seq(n).len() <= s.len(),
        s.subrange(pos, pos + dec_seq(n).len()) == dec_seq(n),
        pos + dec_seq(n).len() == s.len() || !is_dec_digit(s[pos + dec_seq(n).len()]),
        n <= u64::MAX,
    ensures
        sp_num(s, pos) == Some((n as u64, pos + dec_seq(n).len())),
{
    crate::shared::num::lemma_dec_seq_digits(n);
    assert(s[pos] == dec_seq(n)[0]) by {
        assert(s.subrange(pos, pos + dec_seq(n).len())[0] == s[pos]);
    }
    crate::shared::num::lemma_acc_val_dec_seq(n);
    lemma_sp_num_rec_digits(s, pos, dec_seq(n), 0);
}

/// Splitting a known stretch of text into its two halves.
proof fn lemma_split_at(s: Seq<char>, pos: int, x: Seq<char>, y: Seq<char>)
    requires
        0 <= pos,
        pos + x.len() + y.len() <= s.len(),
        s.subrange(pos, pos + x.len() + y.len()) == x + y,
    ensures
        s.subrange(pos, pos + x.len()) == x,
        s.subrange(pos + x.len(), pos + x.len() + y.len()) == y,
        forall|i: int| 0 <= i < x.len() ==> s[pos + i] == x[i],
        forall|i: int| 0 <= i < y.len() ==> s[pos + x.len() + i] == y[i],
{
    assert forall|i: int| 0 <= i < x.len() implies s[pos + i] == x[i] by {
        assert(s.subrange(pos, pos + x.len() + y.len())[i] == s[pos + i]);
        assert((x + y)[i] == x[i]);
    }
    assert forall|i: int| 0 <= i < y.len() implies s[pos + x.len() + i] == y[i] by {
        assert(s.subrange(pos, pos + x.len() + y.len())[x.len() + i] == s[pos + x.len() + i]);
        assert((x + y)[x.len() + i] == y[i]);
    }
    assert(s.subrange(pos, pos + x.len()) =~= x);
    assert(s.subrange(pos + x.len(), pos + x.len() + y.len()) =~= y);
}

/// A character named by its scalar value is that character.
proof fn lemma_scalar_char(c: char)
    ensures
        0 <= char_code(c) <= 0x10FFFF,
        valid_scalar(char_code(c)),
        scalar_char(char_code(c)) == c,
        (c as u32) as int == char_code(c),
{
    broadcast use vstd::utf8::char_is_scalar;

    assert(vstd::utf8::is_scalar(c as u32));
    assert((c as u32) as int == c as int);
    assert(char_code(c) == c as int);
    assert(exists|c2: char| char_code(c2) == char_code(c)) by {
        assert(char_code(c) == char_code(c));
    }
    assert(char_code(scalar_char(char_code(c))) == char_code(c));
}

/// An escaped title followed by its closing quote parses back to the title.
#[verifier::rlimit(100)]
proof fn lemma_sp_str_at(s: Seq<char>, pos: int, t: Seq<char>)
    requires
        0 <= pos,
        pos + escape(t).len() + 1 <= s.len(),
        s.subrange(pos, pos + escape(t).len()) == escape(t),
        s[pos + escape(t).len()] == '"',
    ensures
        sp_str(s, pos) == Some((t, pos + escape(t).len() + 1)),
    decreases t.len(),
{
    if t.len() == 0 {
        assert(escape(t).len() == 0);
        assert(s[pos] == '"');
    } else {
        let c = t[0];
        let e = esc_char(c);
        let t2 = t.drop_first();
        assert(escape(t) == e + escape(t2));
        lemma_split_at(s, pos, e, escape(t2));
        if c == '"' || c == '\\' {
            assert(s[pos] == '\\' && s[pos + 1] == c) by {
                assert(s.subrange(pos, pos + e.len())[0] == s[pos]);
                assert(s.subrange(pos, pos + e.len())[1] == s[pos + 1]);
            }
            assert(named_escape(c) == Some(c));
            lemma_sp_str_at(s, pos + 2, t2);
            assert(seq![c] + t2 =~= t);
        } else if c == '\n' || c == '\r' || c == '\t' || c == '\u{8}' || c == '\u{C}' {
            assert(s[pos] == '\\' && s[pos + 1] == e[1]) by {
                assert(s.subrange(pos, pos + e.len())[0] == s[pos]);
                assert(s.subrange(pos, pos + e.len())[1] == s[pos + 1]);
            }
            assert(named_escape(e[1]) == Some(c));
            lemma_sp_str_at(s, pos + 2, t2);
            assert(seq![c] + t2 =~= t);
        } else if (c as int) < 0x20 {
            let ci = c as int;
            assert(e.len() == 6);
            assert(s[pos] == '\\' && s[pos + 1] == 'u' && s[pos + 2] == '0' && s[pos + 3] == '0'
                && s[pos + 4] == hex_digit((ci / 16) as nat) && s[pos + 5] == hex_digit(
                (ci % 16) as nat,
            )) by {
                assert(s.subrange(pos, pos + e.len())[0] == s[pos]);
                assert(s.subrange(pos, pos + e.len())[1] == s[pos + 1]);
                assert(s.subrange(pos, pos + e.len())[2] == s[pos + 2]);
                assert(s.subrange(pos, pos + e.len())[3] == s[pos + 3]);
                assert(s.subrange(pos, pos + e.len())[4] == s[pos + 4]);
                assert(s.subrange(pos, pos + e.len())[5] == s[pos + 5]);
            }
            lemma_scalar_char(c);
            assert(0 <= ci / 16 < 16 && 0 <= ci % 16 < 16) by {
                vstd::arithmetic::div_mod::lemma_fundamental_div_mod(ci, 16);
            }
            lemma_hex_digit((ci / 16) as nat);
            lemma_hex_digit((ci % 16) as nat);
            assert(is_hex_digit('0') && hex_val('0') == 0) by {
                assert('0' as int == 48);
            }
            assert(hex4val(s, pos + 2) == ci) by {
                assert(ci == 16 * (ci / 16) + ci % 16) by {
                    vstd::arithmetic::div_mod::lemma_fundamental_div_mod(ci, 16);
                }
            }
            assert(valid_scalar(hex4val(s, pos + 2)));
            assert(scalar_char(hex4val(s, pos + 2)) == c);
            lemma_sp_str_at(s, pos + 6, t2);
            assert(seq![c] + t2 =~= t);
        } else {
            assert(s[pos] == c) by {
                assert(s.subrange(pos, pos + e.len())[0] == s[pos]);
            }
            lemma_sp_str_at(s, pos + 1, t2);
            assert(seq![s[pos]] + t2 =~= t);
        }
    }
}

/// The rendering of a flag, standing right at `pos`, parses back to the flag.
proof fn lemma_sp_bool_at(s: Seq<char>, pos: int, b: bool)
    requires
        0 <= pos,
        pos + render_bool(b).len() <= s.len(),
        s.subrange(pos, pos + render_bool(b).len()) == render_bool(b),
    ensures
        sp_bool(s, pos) == Some((b, pos + render_bool(b).len())),
{
    reveal_strlit("true");
    reveal_strlit("false");
    assert(s[pos] == render_bool(b)[0]) by {
        assert(s.subrange(pos, pos + render_bool(b).len())[0] == s[pos]);
    }
    assert(!is_json_ws(s[pos]));
    assert(skip_ws(s, pos) == pos);
    if b {
        assert(sp_lit(s, pos, "true"@) == Some(pos + 4));
    } else {
        assert(s[pos] == 'f');
        if pos + 4 <= s.len() && s.subrange(pos, pos + 4) == "true"@ {
            assert(s.subrange(pos, pos + 4)[0] == s[pos]);
            assert(false);
        }
        assert(sp_lit(s, pos, "true"@) is None);
        assert(sp_lit(s, pos, "false"@) == Some(pos + 5));
    }
}

/// A token standing right at `pos` in a known stretch of text is read there.
proof fn lemma_tok_here(s: Seq<char>, pos: int, lit: Seq<char>)
    requires
        0 <= pos,
        pos + lit.len() <= s.len(),
        s.subrange(pos, pos + lit.len()) == lit,
        lit.len() >= 1,
        !is_json_ws(lit[0]),
    ensures
        sp_tok(s, pos, lit) == Some(pos + lit.len()),
{
    assert(s[pos] == lit[0]) by {
        assert(s.subrange(pos, pos + lit.len())[0] == s[pos]);
    }
    assert(skip_ws(s, pos) == pos);
}

/// The rendering of one task parses back to the task.
#[verifier::rlimit(100)]
proof fn lemma_sp_task_at(s: Seq<char>, pos: int, t: TaskModel)
    requires
        0 <= pos,
        pos + render_task(t).len() <= s.len(),
        s.subrange(pos, pos + render_task(t).len()) == render_task(t),
    ensures
        sp_task(s, pos) == Some((t, pos + render_task(t).len())),
{
    reveal_strlit("{\"id\":");
    reveal_strlit(",\"title\":\"");
    reveal_strlit("\",\"done\":");
    reveal_strlit("{");
    reveal_strlit("\"id\"");
    reveal_strlit(":");
    reveal_strlit(",");
    reveal_strlit("\"title\"");
    reveal_strlit("\"");
    reveal_strlit("\"done\"");
    reveal_strlit("}");
    let f1 = "{"@;
    let f2 = "\"id\""@;
    let f3 = ":"@;
    let f4 = dec_seq(t.id as nat);
    let f5 = ","@;
    let f6 = "\"title\""@;
    let f7 = ":"@;
    let f8 = "\""@;
    let f9 = escape(t.title);
    let f10 = "\""@;
    let f11 = ","@;
    let f12 = "\"done\""@;
    let f13 = ":"@;
    let f14 = render_bool(t.done);
    let f15 = "}"@;
    let r = render_task(t);
    let x2 = f1 + f2;
    let x3 = x2 + f3;
    let x4 = x3 + f4;
    let x5 = x4 + f5;
    let x6 = x5 + f6;
    let x7 = x6 + f7;
    let x8 = x7 + f8;
    let x9 = x8 + f9;
    let x10 = x9 + f10;
    let x11 = x10 + f11;
    let x12 = x11 + f12;
    let x13 = x12 + f13;
    let x14 = x13 + f14;
    assert(r =~= x14 + f15);
    lemma_split_at(s, pos, x14, f15);
    lemma_split_at(s, pos, x13, f14);
    lemma_split_at(s, pos, x12, f13);
    lemma_split_at(s, pos, x11, f12);
    lemma_split_at(s, pos, x10, f11);
    lemma_split_at(s, pos, x9, f10);
    lemma_split_at(s, pos, x8, f9);
    lemma_split_at(s, pos, x7, f8);
    lemma_split_at(s, pos, x6, f7);
    lemma_split_at(s, pos, x5, f6);
    lemma_split_at(s, pos, x4, f5);
    lemma_split_at(s, pos, x3, f4);
    lemma_split_at(s, pos, x2, f3);
    lemma_split_at(s, pos, f1, f2);
    let p1 = pos + 1;
    let p2 = p1 + f2.len();
    let p3 = p2 + 1;
    let p4 = p3 + f4.len();
    let p5 = p4 + 1;
    let p6 = p5 + f6.len();
    let p7 = p6 + 1;
    let p8 = p7 + 1;
    let p9 = p8 + f9.len() + 1;
    let p10 = p9 + 1;
    let p11 = p10 + f12.len();
    let p12 = p11 + 1;
    let p13 = p12 + f14.len();
    let p14 = p13 + 1;
    lemma_tok_here(s, pos, f1);
    lemma_tok_here(s, p1, f2);
    lemma_tok_here(s, p2, f3);
    crate::shared::num::lemma_dec_seq_digits(t.id as nat);
    assert(s[p3] == f4[0]) by {
        assert(s.subrange(p3, p4)[0] == s[p3]);
    }
    assert(!is_json_ws(s[p3]));
    assert(skip_ws(s, p3) == p3);
    assert(!is_dec_digit(s[p4])) by {
        assert(s.subrange(p4, p5)[0] == s[p4]);
    }
    lemma_sp_num_at(s, p3, t.id as nat);
    lemma_tok_here(s, p4, f5);
    lemma_tok_here(s, p5, f6);
    lemma_tok_here(s, p6, f7);
    lemma_tok_here(s, p7, f8);
    assert(s[p8 + f9.len()] == '"') by {
        assert(s.subrange(p8 + f9.len(), p8 + f9.len() + 1)[0] == s[p8 + f9.len()]);
    }
    lemma_sp_str_at(s, p8, t.title);
    lemma_tok_here(s, p9, f11);
    lemma_tok_here(s, p10, f12);
    lemma_tok_here(s, p11, f13);
    assert(s.subrange(p12, p13) == f14);
    lemma_sp_bool_at(s, p12, t.done);
    lemma_tok_here(s, p13, f15);
    assert(p14 == pos + r.len());
    assert(TaskModel { id: t.id, title: t.title, done: t.done } =~= t);
}

/// The rendering of a non-empty task array, followed by its closing bracket,
/// parses back to the array.
proof fn lemma_sp_tasks_at(s: Seq<char>, pos: int, items: Seq<TaskModel>)
    requires
        items.len() >= 1,
        0 <= pos,
        pos + render_tasks(items).len() + 1 <= s.len(),
        s.subrange(pos, pos + render_tasks(items).len()) == render_tasks(items),
        s[pos + render_tasks(items).len()] == ']',
    ensures
        sp_tasks(s, pos) == Some((items, pos + render_tasks(items).len() + 1)),
    decreases items.len(),
{
    let r = render_tasks(items);
    let t0 = render_task(items[0]);
    if items.len() == 1 {
        assert(r == t0);
        lemma_sp_task_at(s, pos, items[0]);
        let p = pos + t0.len();
        assert(s[p] == ']');
        assert(!is_json_ws(s[p]));
        assert(skip_ws(s, p) == p);
        assert(seq![items[0]] =~= items);
    } else {
        let rest = render_tasks(items.drop_first());
        let x12 = t0 + seq![','];
        assert(r == x12 + rest);
        lemma_split_at(s, pos, x12, rest);
        lemma_split_at(s, pos, t0, seq![',']);
        lemma_sp_task_at(s, pos, items[0]);
        let p = pos + t0.len();
        assert(s.subrange(p, p + 1)[0] == s[p]);
        assert(s[p] == ',');
        assert(!is_json_ws(s[p]));
        assert(skip_ws(s, p) == p);
        assert(s[p + 1 + rest.len()] == ']');
        lemma_sp_tasks_at(s, p + 1, items.drop_first());
        assert(seq![items[0]] + items.drop_first() =~= items);
    }
}

/// The leading tokens of a rendered list stand at fixed offsets, and the
/// task array text follows them.
#[verifier::rlimit(100)]
proof fn lemma_list_head(m: ListModel)
    ensures
        ({
            let s = render_model(m);
            let rt = render_tasks(m.items);
            &&& s.len() == 23 + rt.len() + dec_seq(m.next_id as nat).len()
            &&& sp_tok(s, 0, "{"@) == Some(1int)
            &&& sp_tok(s, 1, "\"items\""@) == Some(8int)
            &&& sp_tok(s, 8, ":"@) == Some(9int)
            &&& sp_tok(s, 9, "["@) == Some(10int)
            &&& s.subrange(10, 10 + rt.len() as int) == rt
            &&& s[10 + rt.len() as int] == ']'
        }),
{
    reveal_strlit("{\"items\":[");
    reveal_strlit("],\"next_id\":");
    reveal_strlit("{");
    reveal_strlit("\"items\"");
    reveal_strlit(":");
    reveal_strlit("[");
    reveal_strlit("}");
    let s = render_model(m);
    let h = "{\"items\":["@;
    let rt = render_tasks(m.items);
    let mid = "],\"next_id\":"@;
    let num = dec_seq(m.next_id as nat);
    let tail = "}"@;
    let pm = 10 + rt.len() as int;
    let x12 = h + rt;
    let x13 = x12 + mid;
    let x14 = x13 + num;
    assert(s == x14 + tail);
    assert(s.subrange(0, s.len() as int) =~= s);
    lemma_split_at(s, 0, x14, tail);
    lemma_split_at(s, 0, x13, num);
    lemma_split_at(s, 0, x12, mid);
    lemma_split_at(s, 0, h, rt);
    let y2 = "{"@ + "\"items\""@;
    let y3 = y2 + ":"@;
    assert(h =~= y3 + "["@);
    lemma_split_at(s, 0, y3, "["@);
    lemma_split_at(s, 0, y2, ":"@);
    lemma_split_at(s, 0, "{"@, "\"items\""@);
    lemma_tok_here(s, 0, "{"@);
    lemma_tok_here(s, 1, "\"items\""@);
    lemma_tok_here(s, 8, ":"@);
    lemma_tok_here(s, 9, "["@);
    assert(s[pm] == mid[0]) by {
        assert(s.subrange(pm, pm + mid.len())[0] == s[pm]);
    }
}

/// The task array of a rendered list is read back from offset 10.
#[verifier::rlimit(100)]
proof fn lemma_list_items(m: ListModel)
    ensures
        ({
            let s = render_model(m);
            let rt = render_tasks(m.items);
            &&& skip_ws(s, 10) == 10
            &&& (m.items.len() == 0 ==> 10 < s.len() && s[10] == ']')
            &&& (m.items.len() != 0 ==> 10 < s.len() && s[10] != ']' && sp_tasks(s, 10) == Some(
                (m.items, 11 + rt.len() as int),
            ))
        }),
{
    reveal_strlit("{\"id\":");
    lemma_list_head(m);
    let s = render_model(m);
    let rt = render_tasks(m.items);
    let pm = 10 + rt.len() as int;
    if m.items.len() == 0 {
        assert(rt.len() == 0);
        assert(s[10] == ']');
        assert(!is_json_ws(s[10]));
    } else {
        assert(rt[0] == render_task(m.items[0])[0]) by {
            if m.items.len() > 1 {
                assert((render_task(m.items[0]) + seq![','] + render_tasks(
                    m.items.drop_first(),
                ))[0] == render_task(m.items[0])[0]);
            }
        }
        assert(render_task(m.items[0])[0] == "{\"id\":"@[0]) by {
            assert(("{\"id\":"@ + dec_seq(m.items[0].id as nat) + ",\"title\":\""@ + escape(
                m.items[0].title,
            ) + "\",\"done\":"@ + render_bool(m.items[0].done) + "}"@)[0] == "{\"id\":"@[0]);
        }
        assert(s[10] == rt[0]) by {
            assert(s.subrange(10, pm)[0] == s[10]);
        }
        assert(s[10] == '{');
        assert(!is_json_ws(s[10]));
        assert(s[10] != ']');
        lemma_sp_tasks_at(s, 10, m.items);
    }
}

/// The closing tokens of a rendered list — the comma, the counter's key and
/// value, and the closing brace — are read back after the task array.
#[verifier::rlimit(100)]
proof fn lemma_list_tail(m: ListModel)
    ensures
        ({
            let s = render_model(m);
            let pm = 10 + render_tasks(m.items).len() as int;
            let p8 = pm + 12;
            let p9 = p8 + dec_seq(m.next_id as nat).len();
            &&& sp_tok(s, pm + 1, ","@) == Some(pm + 2)
            &&& sp_tok(s, pm + 2, "\"next_id\""@) == Some(pm + 11)
            &&& sp_tok(s, pm + 11, ":"@) == Some(p8)
            &&& skip_ws(s, p8) == p8
            &&& sp_num(s, p8) == Some((m.next_id, p9))
            &&& sp_tok(s, p9, "}"@) == Some(p9 + 1)
            &&& p9 + 1 == s.len()
            &&& skip_ws(s, p9 + 1) == p9 + 1
        }),
{
    reveal_strlit("{\"items\":[");
    reveal_strlit("],\"next_id\":");
    reveal_strlit("]");
    reveal_strlit(",");
    reveal_strlit("\"next_id\"");
    reveal_strlit(":");
    reveal_strlit("}");
    let s = render_model(m);
    let h = "{\"items\":["@;
    let rt = render_tasks(m.items);
    let mid = "],\"next_id\":"@;
    let num = dec_seq(m.next_id as nat);
    let tail = "}"@;
    let pm = 10 + rt.len() as int;
    let p8 = pm + 12;
    let p9 = p8 + num.len();
    let p10 = p9 + 1;
    let x12 = h + rt;
    let x13 = x12 + mid;
    let x14 = x13 + num;
    assert(s == x14 + tail);
    assert(s.subrange(0, s.len() as int) =~= s);
    lemma_split_at(s, 0, x14, tail);
    lemma_split_at(s, 0, x13, num);
    lemma_split_at(s, 0, x12, mid);
    let z2 = "]"@ + ","@;
    let z3 = z2 + "\"next_id\""@;
    assert(mid =~= z3 + ":"@);
    lemma_split_at(s, pm, z3, ":"@);
    lemma_split_at(s, pm, z2, "\"next_id\""@);
    lemma_split_at(s, pm, "]"@, ","@);
    assert(s[pm + 1] == ","@[0]) by {
        assert(s.subrange(pm + 1, pm + 2)[0] == s[pm + 1]);
    }
    lemma_tok_here(s, pm + 1, ","@);
    lemma_tok_here(s, pm + 2, "\"next_id\""@);
    lemma_tok_here(s, pm + 11, ":"@);
    assert(s[p9] == tail[0]) by {
        assert(s.subrange(p9, p10)[0] == s[p9]);
    }
    lemma_tok_here(s, p9, tail);
    crate::shared::num::lemma_dec_seq_digits(m.next_id as nat);
    assert(s[p8] == num[0]) by {
        assert(s.subrange(p8, p9)[0] == s[p8]);
    }
    assert(!is_json_ws(s[p8]));
    assert(!is_dec_digit(s[p9])) by {
        assert(s[p9] == '}');
    }
    lemma_sp_num_at(s, p8, m.next_id as nat);
    assert(skip_ws(s, p10) == p10);
}

/// The rendering of a whole list parses back to the list.
#[verifier::rlimit(100)]
pub proof fn lemma_sp_list_render(m: ListModel)
    ensures
        sp_list(render_model(m)) == Some(m),
{
    lemma_list_head(m);
    lemma_list_items(m);
    lemma_list_tail(m);
    let s = render_model(m);
    let rt = render_tasks(m.items);
    let pm = 10 + rt.len() as int;
    assert(ListModel { items: m.items, next_id: m.next_id } =~= m);
    assert(sp_list(s) == Some(m));
}

/// Saving a well-formed list and loading the text back reproduces the list
/// exactly: the same identifiers, titles and flags, in the same order, and
/// the same counter.
pub proof fn lemma_save_load_round_trip(m: ListModel)
    requires
        m.wf(),
    ensures
        parse_spec(render_model(m)) == Some(m),
        load_model(render_model(m)) == m,
{
    lemma_sp_list_render(m);
}

/// Relies on String::push: it appends exactly the one character.
#[verifier::external_body]
fn push_char(s: &mut String, c: char)
    ensures
        final(s)@ == old(s)@.push(c),
{
    s.push(c);
}

/// Relies on char::from_u32: a character for every scalar value that is not a
/// surrogate and not beyond the last plane, and nothing for the rest.
#[verifier::external_body]
fn char_of_u32(v: u32) -> (r: Option<char>)
    ensures
        r is Some <==> valid_scalar(v as int),
        r matches Some(c) ==> c as u32 == v,
{
    char::from_u32(v)
}

/// One hexadecimal digit as a character, lower case.
fn hex_char(d: u32) -> (r: char)
    requires
        d < 16,
    ensures
        r == hex_digit(d as nat),
{
    if d == 0 {
        '0'
    } else if d == 1 {
        '1'
    } else if d == 2 {
        '2'
    } else if d == 3 {
        '3'
    } else if d == 4 {
        '4'
    } else if d == 5 {
        '5'
    } else if d == 6 {
        '6'
    } else if d == 7 {
        '7'
    } else if d == 8 {
        '8'
    } else if d == 9 {
        '9'
    } else if d == 10 {
        'a'
    } else if d == 11 {
        'b'
    } else if d == 12 {
        'c'
    } else if d == 13 {
        'd'
    } else if d == 14 {
        'e'
    } else {
        'f'
    }
}

/// The value of one hexadecimal digit character.
fn hex_val_char(c: char) -> (r: Option<u32>)
    ensures
        r is Some <==> is_hex_digit(c),
        r matches Some(v) ==> v == hex_val(c) && v < 16,
{
    let x = c as u32;
    proof {
        assert(x as int == c as int);
        assert('0' as int == 48 && '9' as int == 57);
        assert('a' as int == 97 && 'f' as int == 102);
        assert('A' as int == 65 && 'F' as int == 70);
    }
    if 48 <= x && x <= 57 {
        Some(x - 48)
    } else if 97 <= x && x <= 102 {
        Some(x - 97 + 10)
    } else if 65 <= x && x <= 70 {
        Some(x - 65 + 10)
    } else {
        None
    }
}

/// Write a title as it stands between the quotes.
fn escape_str(s: &str) -> (r: String)
    ensures
        r@ == escape(s@),
{
    let n = s.unicode_len();
    let mut out = String::new();
    let mut i: usize = 0;
    proof {
        assert(s@.subrange(0, 0) =~= Seq::<char>::empty());
    }
    while i < n
        invariant
            n == s@.len(),
            0 <= i <= n,
            out@ == escape(s@.subrange(0, i as int)),
        decreases n - i,
    {
        let c = s.get_char(i);
        if c == '"' || c == '\\' {
            push_char(&mut out, '\\');
            push_char(&mut out, c);
        } else if c == '\n' {
            push_char(&mut out, '\\');
            push_char(&mut out, 'n');
        } else if c == '\r' {
            push_char(&mut out, '\\');
            push_char(&mut out, 'r');
        } else if c == '\t' {
            push_char(&mut out, '\\');
            push_char(&mut out, 't');
        } else if c == '\u{8}' {
            push_char(&mut out, '\\');
            push_char(&mut out, 'b');
        } else if c == '\u{C}' {
            push_char(&mut out, '\\');
            push_char(&mut out, 'f');
        } else if (c as u32) < 0x20 {
            let v = c as u32;
            proof {
                assert(v as int == c as int);
            }
            push_char(&mut out, '\\');
            push_char(&mut out, 'u');
            push_char(&mut out, '0');
            push_char(&mut out, '0');
            push_char(&mut out, hex_char(v / 16));
            push_char(&mut out, hex_char(v % 16));
        } else {
            push_char(&mut out, c);
        }
        proof {
            let pre = s@.subrange(0, i as int);
            let one = seq![s@[i as int]];
            lemma_escape_concat(pre, one);
            assert(s@.subrange(0, i + 1) =~= pre + one);
            assert(one.drop_first() =~= Seq::<char>::empty());
            assert(escape(Seq::<char>::empty()) =~= Seq::<char>::empty());
            assert(escape(one) == esc_char(one[0]) + escape(one.drop_first()));
            assert(escape(one) =~= esc_char(s@[i as int]));
            if !(c == '"' || c == '\\' || c == '\n' || c == '\r' || c == '\t' || c == '\u{8}' || c
                == '\u{C}') && (c as int) < 0x20 {
                assert((c as int) / 16 == (c as u32 / 16) as int);
                assert((c as int) % 16 == (c as u32 % 16) as int);
            }
            assert(out@ =~= escape(s@.subrange(0, i + 1)));
        }
        i += 1;
    }
    proof {
        assert(s@.subrange(0, n as int) =~= s@);
    }
    out
}

/// The text for one task.
fn task_string(t: &Todo) -> (r: String)
    ensures
        r@ == render_task(t@),
{
    let mut s = String::from_str("{\"id\":");
    let num = u64_to_string(t.id);
    s.append(num.as_str());
    s.append(",\"title\":\"");
    let esc = escape_str(t.title.as_str());
    s.append(esc.as_str());
    s.append("\",\"done\":");
    if t.done {
        s.append("true");
    } else {
        s.append("false");
    }
    s.append("}");
    proof {
        assert(s@ =~= render_task(t@));
    }
    s
}

/// Serialize the whole list to its canonical persisted text.
pub fn render_todos(list: &TodoList) -> (r: String)
    ensures
        r@ == render_model(list@),
{
    let mut s = String::from_str("{\"items\":[");
    let mut i: usize = 0;
    proof {
        assert(list@.items.subrange(0, 0) =~= Seq::<TaskModel>::empty());
    }
    while i < list.items.len()
        invariant
            0 <= i <= list.items@.len(),
            s@ == "{\"items\":["@ + render_tasks(list@.items.subrange(0, i as int)),
        decreases list.items@.len() - i,
    {
        if i > 0 {
            s.append(",");
        }
        let task = task_string(&list.items[i]);
        s.append(task.as_str());
        proof {
            reveal_strlit(",");
            let pre = list@.items.subrange(0, i as int);
            lemma_render_tasks_push(pre, list@.items[i as int]);
            assert(list@.items.subrange(0, i + 1) =~= pre.push(list@.items[i as int]));
            assert(s@ =~= "{\"items\":["@ + render_tasks(list@.items.subrange(0, i + 1)));
        }
        i += 1;
    }
    proof {
        assert(list@.items.subrange(0, list@.items.len() as int) =~= list@.items);
    }
    s.append("],\"next_id\":");
    let num = u64_to_string(list.next_id);
    s.append(num.as_str());
    s.append("}");
    proof {
        assert(s@ =~= render_model(list@));
    }
    s
}

/// Move past the blanks before a token.
fn p_skip(s: &str, n: usize, pos: usize) -> (r: usize)
    requires
        n == s@.len(),
        pos <= n,
    ensures
        r as int == skip_ws(s@, pos as int),
        pos <= r <= n,
{
    let mut p: usize = pos;
    while p < n
        invariant
            n == s@.len(),
            pos <= p <= n,
            skip_ws(s@, pos as int) == skip_ws(s@, p as int),
        decreases n - p,
    {
        let c = s.get_char(p);
        if c == ' ' || c == '\t' || c == '\n' || c == '\r' {
            p = p + 1;
        } else {
            proof {
                assert(skip_ws(s@, p as int) == p as int);
            }
            return p;
        }
    }
    proof {
        assert(skip_ws(s@, p as int) == p as int);
    }
    p
}

/// Read a fixed piece of text at exactly `pos`.
fn p_lit(s: &str, n: usize, pos: usize, lit: &str) -> (r: Option<usize>)
    requires
        n == s@.len(),
        pos <= n,
    ensures
        (match r {
            Some(p) => sp_lit(s@, pos as int, lit@) == Some(p as int) && p == pos + lit@.len()
                && p <= n,
            None => sp_lit(s@, pos as int, lit@) is None,
        }),
{
    let ln = lit.unicode_len();
    if ln > n - pos {
        return None;
    }
    let mut i: usize = 0;
    while i < ln
        invariant
            n == s@.len(),
            ln == lit@.len(),
            pos + ln <= n,
            0 <= i <= ln,
            forall|j: int| 0 <= j < i ==> s@[pos + j] == lit@[j],
        decreases ln - i,
    {
        if s.get_char(pos + i) != lit.get_char(i) {
            proof {
                if s@.subrange(pos as int, pos + ln) == lit@ {
                    assert(s@.subrange(pos as int, pos + ln)[i as int] == s@[pos + i]);
                    assert(false);
                }
            }
            return None;
        }
        i += 1;
    }
    proof {
        assert(s@.subrange(pos as int, pos + ln) =~= lit@);
    }
    Some(pos + ln)
}

/// Read a fixed token, blanks before it allowed.
fn p_tok(s: &str, n: usize, pos: usize, lit: &str) -> (r: Option<usize>)
    requires
        n == s@.len(),
        pos <= n,
    ensures
        (match r {
            Some(p) => sp_tok(s@, pos as int, lit@) == Some(p as int) && p <= n && pos + lit@.len()
                <= p,
            None => sp_tok(s@, pos as int, lit@) is None,
        }),
{
    let q = p_skip(s, n, pos);
    p_lit(s, n, q, lit)
}

/// Read a number.
fn p_num(s: &str, n: usize, pos: usize) -> (r: Option<(u64, usize)>)
    requires
        n == s@.len(),
        pos <= n,
    ensures
        (match r {
            Some((v, p)) => sp_num(s@, pos as int) == Some((v, p as int)) && pos < p <= n,
            None => sp_num(s@, pos as int) is None,
        }),
{
    proof {
        assert('0' as int == 48 && '9' as int == 57);
    }
    if pos >= n {
        return None;
    }
    let c0 = s.get_char(pos) as u32;
    if !(48 <= c0 && c0 <= 57) {
        return None;
    }
    let mut acc: u64 = 0;
    let mut p: usize = pos;
    while p < n
        invariant
            n == s@.len(),
            pos <= p <= n,
            pos < n && is_dec_digit(s@[pos as int]),
            sp_num_rec(s@, pos as int, 0) == sp_num_rec(s@, p as int, acc as nat),
            p == pos ==> acc == 0,
        decreases n - p,
    {
        let c = s.get_char(p) as u32;
        if 48 <= c && c <= 57 {
            let d = (c - 48) as u64;
            proof {
                assert(digit_val(s@[p as int]) == d as nat);
            }
            if acc <= (u64::MAX - d) / 10 {
                proof {
                    let q = ((u64::MAX - d) / 10) as int;
                    assert(u64::MAX - d == 10 * q + ((u64::MAX - d) as int % 10)) by {
                        vstd::arithmetic::div_mod::lemma_fundamental_div_mod(
                            (u64::MAX - d) as int,
                            10,
                        );
                    }
                    assert(acc * 10 + d <= u64::MAX);
                }
                acc = acc * 10 + d;
                p = p + 1;
            } else {
                proof {
                    let q = ((u64::MAX - d) / 10) as int;
                    assert(u64::MAX - d == 10 * q + ((u64::MAX - d) as int % 10)) by {
                        vstd::arithmetic::div_mod::lemma_fundamental_div_mod(
                            (u64::MAX - d) as int,
                            10,
                        );
                    }
                    assert((acc as nat) * 10 + digit_val(s@[p as int]) > u64::MAX);
                }
                return None;
            }
        } else {
            proof {
                assert(!is_dec_digit(s@[p as int]));
                assert(p > pos);
            }
            return Some((acc, p));
        }
    }
    proof {
        assert(p > pos);
    }
    Some((acc, p))
}

/// Read a title up to and including its closing quote.
#[verifier::rlimit(100)]
fn p_str(s: &str, n: usize, pos: usize) -> (r: Option<(String, usize)>)
    requires
        n == s@.len(),
        pos <= n,
    ensures
        (match r {
            Some((t, p)) => sp_str(s@, pos as int) == Some((t@, p as int)) && pos < p <= n,
            None => sp_str(s@, pos as int) is None,
        }),
{
    let mut out = String::new();
    let mut p: usize = pos;
    while p < n
        invariant
            n == s@.len(),
            pos <= p <= n,
            (match sp_str(s@, p as int) {
                Some((t2, q)) => sp_str(s@, pos as int) == Some((out@ + t2, q)),
                None => sp_str(s@, pos as int) is None,
            }),
        decreases n - p,
    {
        let c = s.get_char(p);
        if c == '"' {
            proof {
                lemma_sp_str_bounds(s@, pos as int);
                assert(out@ + Seq::<char>::empty() =~= out@);
            }
            return Some((out, p + 1));
        } else if c == '\\' {
            if p + 1 < n {
                let e = s.get_char(p + 1);
                if e == 'u' {
                    if n - p < 6 {
                        return None;
                    }
                    let h1 = match hex_val_char(s.get_char(p + 2)) {
                        Some(v) => v,
                        None => {
                            return None;
                        },
                    };
                    let h2 = match hex_val_char(s.get_char(p + 3)) {
                        Some(v) => v,
                        None => {
                            return None;
                        },
                    };
                    let h3 = match hex_val_char(s.get_char(p + 4)) {
                        Some(v) => v,
                        None => {
                            return None;
                        },
                    };
                    let h4 = match hex_val_char(s.get_char(p + 5)) {
                        Some(v) => v,
                        None => {
                            return None;
                        },
                    };
                    let v = ((h1 * 16 + h2) * 16 + h3) * 16 + h4;
                    proof {
                        assert(v as nat == ((hex_val(s@[p + 2]) * 16 + hex_val(s@[p + 3])) * 16
                            + hex_val(s@[p + 4])) * 16 + hex_val(s@[p + 5]));
                        assert(v <= 0xFFFF);
                        assert(v as int == hex4val(s@, p + 2));
                    }
                    if !(v < 0xD800 || v >= 0xE000) {
                        return None;
                    }
                    let cc = match char_of_u32(v) {
                        Some(cc) => cc,
                        None => {
                            return None;
                        },
                    };
                    let ghost prev = out@;
                    push_char(&mut out, cc);
                    proof {
                        lemma_scalar_char(cc);
                        assert(char_code(cc) == v as int);
                        assert(scalar_char(hex4val(s@, p + 2)) == cc);
                        assert(valid_scalar(hex4val(s@, p + 2)));
                        match sp_str(s@, p + 6) {
                            Some((t2, q)) => {
                                assert(prev + (seq![scalar_char(hex4val(s@, p + 2))] + t2) =~= out@
                                    + t2);
                            },
                            None => {},
                        }
                    }
                    p = p + 6;
                } else {
                    let cc = if e == 'n' {
                        '\n'
                    } else if e == 'r' {
                        '\r'
                    } else if e == 't' {
                        '\t'
                    } else if e == 'b' {
                        '\u{8}'
                    } else if e == 'f' {
                        '\u{C}'
                    } else {
                        e
                    };
                    proof {
                        assert(named_escape(s@[p + 1]) == Some(cc));
                    }
                    let ghost prev = out@;
                    push_char(&mut out, cc);
                    proof {
                        match sp_str(s@, p + 2) {
                            Some((t2, q)) => {
                                assert(prev + (seq![cc] + t2) =~= out@ + t2);
                            },
                            None => {},
                        }
                    }
                    p = p + 2;
                }
            } else {
                return None;
            }
        } else {
            let ghost prev = out@;
            push_char(&mut out, c);
            proof {
                match sp_str(s@, p + 1) {
                    Some((t2, q)) => {
                        assert(prev + (seq![s@[p as int]] + t2) =~= out@ + t2);
                    },
                    None => {},
                }
            }
            p = p + 1;
        }
    }
    None
}

/// Read `true` or `false`.
fn p_bool(s: &str, n: usize, pos: usize) -> (r: Option<(bool, usize)>)
    requires
        n == s@.len(),
        pos <= n,
    ensures
        (match r {
            Some((b, p)) => sp_bool(s@, pos as int) == Some((b, p as int)) && pos <= p <= n,
            None => sp_bool(s@, pos as int) is None,
        }),
{
    match p_tok(s, n, pos, "true") {
        Some(p) => Some((true, p)),
        None => match p_tok(s, n, pos, "false") {
            Some(p) => Some((false, p)),
            None => None,
        },
    }
}

/// Read one task.
#[verifier::rlimit(100)]
fn p_task(s: &str, n: usize, pos: usize) -> (r: Option<(Todo, usize)>)
    requires
        n == s@.len(),
        pos <= n,
    ensures
        (match r {
            Some((t, p)) => sp_task(s@, pos as int) == Some((t@, p as int)) && pos < p <= n,
            None => sp_task(s@, pos as int) is None,
        }),
{
    let p1 = match p_tok(s, n, pos, "{") {
        Some(p) => p,
        None => {
            return None;
        },
    };
    let p2 = match p_tok(s, n, p1, "\"id\"") {
        Some(p) => p,
        None => {
            return None;
        },
    };
    let p3 = match p_tok(s, n, p2, ":") {
        Some(p) => p,
        None => {
            return None;
        },
    };
    let q3 = p_skip(s, n, p3);
    let (id, p4) = match p_num(s, n, q3) {
        Some(v) => v,
        None => {
            return None;
        },
    };
    let p5 = match p_tok(s, n, p4, ",") {
        Some(p) => p,
        None => {
            return None;
        },
    };
    let p6 = match p_tok(s, n, p5, "\"title\"") {
        Some(p) => p,
        None => {
            return None;
        },
    };
    let p7 = match p_tok(s, n, p6, ":") {
        Some(p) => p,
        None => {
            return None;
        },
    };
    let p8 = match p_tok(s, n, p7, "\"") {
        Some(p) => p,
        None => {
            return None;
        },
    };
    let (title, p9) = match p_str(s, n, p8) {
        Some(v) => v,
        None => {
            return None;
        },
    };
    let p10 = match p_tok(s, n, p9, ",") {
        Some(p) => p,
        None => {
            return None;
        },
    };
    let p11 = match p_tok(s, n, p10, "\"done\"") {
        Some(p) => p,
        None => {
            return None;
        },
    };
    let p12 = match p_tok(s, n, p11, ":") {
        Some(p) => p,
        None => {
            return None;
        },
    };
    let (done, p13) = match p_bool(s, n, p12) {
        Some(v) => v,
        None => {
            return None;
        },
    };
    let p14 = match p_tok(s, n, p13, "}") {
        Some(p) => p,
        None => {
            return None;
        },
    };
    let todo = Todo { id, title, done };
    proof {
        reveal_strlit("{");
        assert(pos + 1 <= p1);
        assert(p1 <= p2 && p2 <= p3 && p3 <= q3 && q3 < p4 && p4 <= p5 && p5 <= p6 && p6 <= p7
            && p7 <= p8 && p8 < p9 && p9 <= p10 && p10 <= p11 && p11 <= p12 && p12 <= p13 && p13
            <= p14);
        assert(pos < p14);
        assert(sp_task(s@, pos as int) == Some((todo@, p14 as int)));
    }
    Some((todo, p14))
}

/// Read the task array up to and including its closing bracket.
fn p_tasks(s: &str, n: usize, pos: usize) -> (r: Option<(Vec<Todo>, usize)>)
    requires
        n == s@.len(),
        pos <= n,
    ensures
        (match r {
            Some((items, p)) => sp_tasks(s@, pos as int) == Some((tasks_view(items@), p as int))
                && p <= n,
            None => sp_tasks(s@, pos as int) is None,
        }),
{
    let mut items: Vec<Todo> = Vec::new();
    let mut p: usize = pos;
    proof {
        assert(tasks_view(items@) =~= Seq::<TaskModel>::empty());
    }
    loop
        invariant
            n == s@.len(),
            pos <= p <= n,
            (match sp_tasks(s@, p as int) {
                Some((rest, q)) => sp_tasks(s@, pos as int) == Some(
                    (tasks_view(items@) + rest, q),
                ),
                None => sp_tasks(s@, pos as int) is None,
            }),
        decreases n - p,
    {
        match p_task(s, n, p) {
            None => {
                return None;
            },
            Some((t, p2)) => {
                let ghost prev = items@;
                items.push(t);
                proof {
                    assert(tasks_view(items@) =~= tasks_view(prev).push(t@));
                }
                let q = p_skip(s, n, p2);
                if q < n {
                    let c = s.get_char(q);
                    if c == ',' {
                        proof {
                            match sp_tasks(s@, q + 1) {
                                Some((rest, qq)) => {
                                    assert(tasks_view(prev) + (seq![t@] + rest) =~= tasks_view(
                                        items@,
                                    ) + rest);
                                },
                                None => {},
                            }
                        }
                        p = q + 1;
                    } else if c == ']' {
                        proof {
                            assert(tasks_view(prev) + seq![t@] =~= tasks_view(items@));
                        }
                        return Some((items, q + 1));
                    } else {
                        return None;
                    }
                } else {
                    return None;
                }
            },
        }
    }
}

/// Check the list invariant: a positive counter, pairwise distinct
/// identifiers, every one of them below the counter.
fn check_wf(list: &TodoList) -> (r: bool)
    ensures
        r == list@.wf(),
{
    if list.next_id < 1 {
        return false;
    }
    let nlen = list.items.len();
    let mut i: usize = 0;
    while i < nlen
        invariant
            nlen == list.items@.len(),
            0 <= i <= nlen,
            list@.next_id >= 1,
            forall|a: int| 0 <= a < i ==> list@.items[a].id < list@.next_id,
            forall|a: int, b: int|
                0 <= a < b < nlen && a < i ==> list@.items[a].id != list@.items[b].id,
        decreases nlen - i,
    {
        if list.items[i].id >= list.next_id {
            proof {
                if list@.wf() {
                    assert(list@.items[i as int].id < list@.next_id);
                    assert(false);
                }
            }
            return false;
        }
        let mut j: usize = i + 1;
        while j < nlen
            invariant
                nlen == list.items@.len(),
                i < nlen,
                i + 1 <= j <= nlen,
                forall|b: int| i < b < j ==> list@.items[i as int].id != list@.items[b].id,
            decreases nlen - j,
        {
            if list.items[j].id == list.items[i].id {
                proof {
                    if list@.wf() {
                        assert(list@.items[i as int].id != list@.items[j as int].id);
                        assert(false);
                    }
                }
                return false;
            }
            j += 1;
        }
        i += 1;
    }
    true
}

/// Read the whole persisted document back. Yields the list it denotes when
/// the text has the document's shape and satisfies the list invariant, and
/// nothing otherwise.
pub fn parse_todos(s: &str) -> (r: Option<TodoList>)
    ensures
        (match parse_spec(s@) {
            Some(m) => r matches Some(l) && l@ == m,
            None => r is None,
        }),
        r matches Some(l) ==> l@.wf(),
{
    let n = s.unicode_len();
    let p1 = match p_tok(s, n, 0, "{") {
        Some(p) => p,
        None => {
            return None;
        },
    };
    let p2 = match p_tok(s, n, p1, "\"items\"") {
        Some(p) => p,
        None => {
            return None;
        },
    };
    let p3 = match p_tok(s, n, p2, ":") {
        Some(p) => p,
        None => {
            return None;
        },
    };
    let p4 = match p_tok(s, n, p3, "[") {
        Some(p) => p,
        None => {
            return None;
        },
    };
    let q4 = p_skip(s, n, p4);
    let (items, p5): (Vec<Todo>, usize) = if q4 < n && s.get_char(q4) == ']' {
        (Vec::new(), q4 + 1)
    } else {
        match p_tasks(s, n, p4) {
            Some(v) => v,
            None => {
                return None;
            },
        }
    };
    let p6 = match p_tok(s, n, p5, ",") {
        Some(p) => p,
        None => {
            return None;
        },
    };
    let p7 = match p_tok(s, n, p6, "\"next_id\"") {
        Some(p) => p,
        None => {
            return None;
        },
    };
    let p8 = match p_tok(s, n, p7, ":") {
        Some(p) => p,
        None => {
            return None;
        },
    };
    let q8 = p_skip(s, n, p8);
    let (nid, p9) = match p_num(s, n, q8) {
        Some(v) => v,
        None => {
            return None;
        },
    };
    let p10 = match p_tok(s, n, p9, "}") {
        Some(p) => p,
        None => {
            return None;
        },
    };
    let q10 = p_skip(s, n, p10);
    if q10 != n {
        return None;
    }
    let list = TodoList { items, next_id: nid };
    proof {
        assert(tasks_view(Seq::<Todo>::empty()) =~= Seq::<TaskModel>::empty());
        assert(sp_list(s@) == Some(list@));
    }
    if check_wf(&list) {
        Some(list)
    } else {
        None
    }
}

/// Load a list from persisted text: the list the text denotes, or a fresh
/// empty one when the text is missing its shape or its invariant — corrupt
/// state is silently discarded, never an error.
pub fn load_todos_str(s: &str) -> (r: TodoList)
    ensures
        r@ == load_model(s@),
        r@.wf(),
{
    match parse_todos(s) {
        Some(l) => l,
        None => TodoList::new(),
    }
}

} // verus!
