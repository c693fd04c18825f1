//! The persistence format: the task list as a JSON array of
//! `{"text": ..., "completed": ...}` objects, written and parsed by the
//! library itself so that the round trip is proved.
//!
//! The writer emits the canonical compact form: no whitespace, the text
//! first, strings escaped as JSON asks (quote, backslash, and control
//! characters). The parser also takes externally produced data for this
//! schema: insignificant whitespace between tokens and around the array,
//! the two members in either order, and the standard JSON string escapes
//! — `\uXXXX` in either hex case, surrogate pairs included.

use vstd::prelude::*;

use crate::input::Mode;
use crate::task::{Task, TaskView};
use crate::todo::{empty_store, PersistenceError, Todo};

verus! {

/// The lower-case hex digit for a value below 16.
pub open spec fn hex_digit(n: int) -> char {
    if n == 0 {
        '0'
    } else if n == 1 {
        '1'
    } else if n == 2 {
        '2'
    } else if n == 3 {
        '3'
    } else if n == 4 {
        '4'
    } else if n == 5 {
        '5'
    } else if n == 6 {
        '6'
    } else if n == 7 {
        '7'
    } else if n == 8 {
        '8'
    } else if n == 9 {
        '9'
    } else if n == 10 {
        'a'
    } else if n == 11 {
        'b'
    } else if n == 12 {
        'c'
    } else if n == 13 {
        'd'
    } else if n == 14 {
        'e'
    } else {
        'f'
    }
}

/// A JSON hex digit, either case.
pub open spec fn is_hex(c: char) -> bool {
    ('0' <= c && c <= '9') || ('a' <= c && c <= 'f') || ('A' <= c && c <= 'F')
}

pub open spec fn hex_val(c: char) -> int {
    if '0' <= c && c <= '9' {
        c as int - '0' as int
    } else if 'a' <= c && c <= 'f' {
        c as int - 'a' as int + 10
    } else {
        c as int - 'A' as int + 10
    }
}

/// The value of the four hex digits at position `i`.
pub open spec fn hex4(s: Seq<char>, i: int) -> int {
    hex_val(s[i]) * 0x1000 + hex_val(s[i + 1]) * 0x100 + hex_val(s[i + 2]) * 16 + hex_val(
        s[i + 3],
    )
}

proof fn lemma_hex_digit(n: int)
    requires
        0 <= n < 16,
    ensures
        is_hex(hex_digit(n)),
        hex_val(hex_digit(n)) == n,
{
}

/// How one character of task text appears inside a JSON string: quotes
/// and backslashes are escaped, control characters take the `\u00XX`
/// form, everything else stands as itself.
pub open spec fn esc_char(c: char) -> Seq<char> {
    if c == '"' {
        seq!['\\', '"']
    } else if c == '\\' {
        seq!['\\', '\\']
    } else if (c as u32) < 0x20 {
        seq![
            '\\',
            'u',
            '0',
            '0',
            hex_digit(((c as u32) / 16) as int),
            hex_digit(((c as u32) % 16) as int),
        ]
    } else {
        seq![c]
    }
}

/// A whole text, escaped character by character.
pub open spec fn esc_str(t: Seq<char>) -> Seq<char>
    decreases t.len(),
{
    if t.len() == 0 {
        Seq::empty()
    } else {
        esc_char(t[0]) + esc_str(t.drop_first())
    }
}

/// The quoted `text` key.
pub open spec fn key_text() -> Seq<char> {
    seq!['"', 't', 'e', 'x', 't', '"']
}

/// The quoted `completed` key.
pub open spec fn key_completed() -> Seq<char> {
    seq!['"', 'c', 'o', 'm', 'p', 'l', 'e', 't', 'e', 'd', '"']
}

pub open spec fn enc_bool(b: bool) -> Seq<char> {
    if b {
        seq!['t', 'r', 'u', 'e']
    } else {
        seq!['f', 'a', 'l', 's', 'e']
    }
}

/// One task as a JSON object, in the writer's canonical form: no
/// whitespace, the text first.
pub open spec fn enc_task(t: TaskView) -> Seq<char> {
    seq!['{'] + key_text() + seq![':'] + seq!['"'] + esc_str(t.text) + seq!['"'] + seq![',']
        + key_completed() + seq![':'] + enc_bool(t.completed) + seq!['}']
}

/// The comma-separated task objects, without the surrounding brackets.
pub open spec fn enc_list(ts: Seq<TaskView>) -> Seq<char>
    decreases ts.len(),
{
    if ts.len() == 0 {
        Seq::empty()
    } else if ts.len() == 1 {
        enc_task(ts[0])
    } else {
        enc_task(ts[0]) + seq![','] + enc_list(ts.drop_first())
    }
}

/// The whole persisted value: a JSON array of task objects.
pub open spec fn enc_tasks(ts: Seq<TaskView>) -> Seq<char> {
    seq!['['] + enc_list(ts) + seq![']']
}

proof fn lemma_esc_str_snoc(t: Seq<char>, c: char)
    ensures
        esc_str(t.push(c)) == esc_str(t) + esc_char(c),
    decreases t.len(),
{
    if t.len() == 0 {
        assert(t.push(c)[0] == c);
        assert(t.push(c).drop_first() =~= Seq::<char>::empty());
        assert(esc_str(t.push(c)) == esc_char(c) + esc_str(Seq::<char>::empty()));
        assert(esc_char(c) + Seq::<char>::empty() =~= esc_char(c));
        assert(esc_str(t) + esc_char(c) =~= esc_char(c));
    } else {
        assert(t.push(c)[0] == t[0]);
        assert(t.push(c).drop_first() =~= t.drop_first().push(c));
        lemma_esc_str_snoc(t.drop_first(), c);
        assert(esc_str(t.push(c)) == esc_char(t[0]) + (esc_str(t.drop_first()) + esc_char(c)));
        assert(esc_char(t[0]) + (esc_str(t.drop_first()) + esc_char(c)) =~= (esc_char(t[0])
            + esc_str(t.drop_first())) + esc_char(c));
    }
}

proof fn lemma_enc_list_snoc(ts: Seq<TaskView>, i: int)
    requires
        1 <= i < ts.len(),
    ensures
        enc_list(ts.take(i + 1)) == enc_list(ts.take(i)) + seq![','] + enc_task(ts[i]),
    decreases i,
{
    let a = ts.take(i + 1);
    let b = ts.take(i);
    if i == 1 {
        assert(a.drop_first() =~= seq![ts[1]]);
        assert(enc_list(a.drop_first()) == enc_task(ts[1]));
        assert(enc_list(a) =~= enc_list(b) + seq![','] + enc_task(ts[i]));
    } else {
        lemma_enc_list_snoc(ts.drop_first(), i - 1);
        assert(a.drop_first() =~= ts.drop_first().take(i));
        assert(b.drop_first() =~= ts.drop_first().take(i - 1));
        assert(ts.drop_first()[i - 1] == ts[i]);
        assert(enc_list(a) == enc_task(a[0]) + seq![','] + enc_list(a.drop_first()));
        assert(enc_list(b) == enc_task(b[0]) + seq![','] + enc_list(b.drop_first()));
        assert(enc_list(a) =~= enc_list(b) + seq![','] + enc_task(ts[i]));
    }
}

/// The lower-case hex digit of a value below 16.
fn hex_char(n: u32) -> (r: char)
    requires
        n < 16,
    ensures
        r == hex_digit(n as int),
{
    if n == 0 {
        '0'
    } else if n == 1 {
        '1'
    } else if n == 2 {
        '2'
    } else if n == 3 {
        '3'
    } else if n == 4 {
        '4'
    } else if n == 5 {
        '5'
    } else if n == 6 {
        '6'
    } else if n == 7 {
        '7'
    } else if n == 8 {
        '8'
    } else if n == 9 {
        '9'
    } else if n == 10 {
        'a'
    } else if n == 11 {
        'b'
    } else if n == 12 {
        'c'
    } else if n == 13 {
        'd'
    } else if n == 14 {
        'e'
    } else {
        'f'
    }
}

/// Appends one text character to the output in its escaped form.
fn push_escaped(out: &mut String, c: char)
    ensures
        final(out)@ == old(out)@ + esc_char(c),
{
    if c == '"' {
        out.push('\\');
        out.push('"');
        proof {
            assert(out@ =~= old(out)@ + esc_char(c));
        }
    } else if c == '\\' {
        out.push('\\');
        out.push('\\');
        proof {
            assert(out@ =~= old(out)@ + esc_char(c));
        }
    } else if (c as u32) < 0x20 {
        let n = c as u32;
        out.push('\\');
        out.push('u');
        out.push('0');
        out.push('0');
        out.push(hex_char(n / 16));
        out.push(hex_char(n % 16));
        proof {
            assert(out@ =~= old(out)@ + esc_char(c));
        }
    } else {
        out.push(c);
        proof {
            assert(out@ =~= old(out)@ + esc_char(c));
        }
    }
}

/// Appends a whole text in its escaped form.
fn push_escaped_str(out: &mut String, s: &str)
    ensures
        final(out)@ == old(out)@ + esc_str(s@),
{
    let n = s.unicode_len();
    let mut i: usize = 0;
    while i < n
        invariant
            n == s@.len(),
            i <= n,
            out@ == old(out)@ + esc_str(s@.take(i as int)),
        decreases n - i,
    {
        let c = s.get_char(i);
        push_escaped(out, c);
        proof {
            assert(s@.take(i + 1 as int).drop_last() =~= s@.take(i as int));
            assert(s@.take(i + 1 as int) =~= s@.take(i as int).push(c));
            lemma_esc_str_snoc(s@.take(i as int), c);
            assert(out@ =~= old(out)@ + esc_str(s@.take(i + 1 as int)));
        }
        i = i + 1;
    }
    proof {
        assert(s@.take(n as int) =~= s@);
    }
}

/// Appends one task as a JSON object.
fn push_task(out: &mut String, t: &Task)
    ensures
        final(out)@ == old(out)@ + enc_task(t@),
{
    out.append("{\"text\":\"");
    proof {
        reveal_strlit("{\"text\":\"");
        assert("{\"text\":\""@ =~= seq!['{'] + key_text() + seq![':'] + seq!['"']);
    }
    push_escaped_str(out, t.text.as_str());
    out.append("\",\"completed\":");
    proof {
        reveal_strlit("\",\"completed\":");
        assert("\",\"completed\":"@ =~= seq!['"'] + seq![','] + key_completed() + seq![':']);
    }
    if t.completed {
        out.append("true");
        proof {
            reveal_strlit("true");
            assert("true"@ =~= enc_bool(true));
        }
    } else {
        out.append("false");
        proof {
            reveal_strlit("false");
            assert("false"@ =~= enc_bool(false));
        }
    }
    out.push('}');
    proof {
        assert(out@ =~= old(out)@ + enc_task(t@));
    }
}

/// Serializes a task list as the JSON array it is persisted as.
pub fn encode_tasks(tasks: &Vec<Task>) -> (r: String)
    ensures
        r@ == enc_tasks(tasks@.map_values(|t: Task| t@)),
{
    let ghost ts = tasks@.map_values(|t: Task| t@);
    let mut out = String::new();
    out.push('[');
    let mut i: usize = 0;
    while i < tasks.len()
        invariant
            ts == tasks@.map_values(|t: Task| t@),
            i <= tasks.len(),
            out@ == seq!['['] + enc_list(ts.take(i as int)),
        decreases tasks.len() - i,
    {
        if i > 0 {
            out.push(',');
            push_task(&mut out, &tasks[i]);
            proof {
                lemma_enc_list_snoc(ts, i as int);
                assert(out@ =~= seq!['['] + enc_list(ts.take(i + 1 as int)));
            }
        } else {
            push_task(&mut out, &tasks[i]);
            proof {
                assert(ts.take(1).drop_first() =~= Seq::<TaskView>::empty());
                assert(enc_list(ts.take(1)) == enc_task(ts[0]));
                assert(out@ =~= seq!['['] + enc_list(ts.take(1)));
            }
        }
        i = i + 1;
    }
    out.push(']');
    proof {
        assert(ts.take(tasks@.len() as int) =~= ts);
        assert(out@ =~= enc_tasks(ts));
    }
    out
}

/// Whether the pattern `p` stands in `s` at position `i`.
pub open spec fn match_at(s: Seq<char>, i: int, p: Seq<char>) -> bool {
    0 <= i && i + p.len() <= s.len() && s.subrange(i, i + p.len()) == p
}

/// JSON's insignificant whitespace.
pub open spec fn is_ws(c: char) -> bool {
    c == ' ' || c == '\t' || c == '\n' || c == '\r'
}

/// The first position at or after `i` that holds no whitespace (or the
/// end of the input).
pub open spec fn skip_ws(s: Seq<char>, i: int) -> int
    decreases s.len() - i,
{
    if 0 <= i < s.len() && is_ws(s[i]) {
        skip_ws(s, i + 1)
    } else {
        i
    }
}

/// Parses the inside of a JSON string from position `i` (just after the
/// opening quote) to its closing quote, unescaping as it goes; `acc` is
/// the text read so far. Yields the text and the position after the
/// closing quote, or nothing if the string is malformed.
pub open spec fn sp_string(s: Seq<char>, i: int, acc: Seq<char>) -> Option<(Seq<char>, int)>
    decreases s.len() - i,
{
    if i < 0 || i >= s.len() {
        None
    } else if s[i] == '"' {
        Some((acc, i + 1))
    } else if s[i] == '\\' {
        if i + 1 < s.len() {
            let e = s[i + 1];
            if e == '"' || e == '\\' || e == '/' {
                sp_string(s, i + 2, acc.push(e))
            } else if e == 'n' {
                sp_string(s, i + 2, acc.push('\n'))
            } else if e == 't' {
                sp_string(s, i + 2, acc.push('\t'))
            } else if e == 'r' {
                sp_string(s, i + 2, acc.push('\r'))
            } else if e == 'b' {
                sp_string(s, i + 2, acc.push('\u{0008}'))
            } else if e == 'f' {
                sp_string(s, i + 2, acc.push('\u{000c}'))
            } else if e == 'u' {
                if i + 5 < s.len() && is_hex(s[i + 2]) && is_hex(s[i + 3]) && is_hex(s[i + 4])
                    && is_hex(s[i + 5]) {
                    let v = hex4(s, i + 2);
                    if v < 0xD800 || v > 0xDFFF {
                        sp_string(s, i + 6, acc.push(((v as u32) as char)))
                    } else if v <= 0xDBFF {
                        if i + 11 < s.len() && s[i + 6] == '\\' && s[i + 7] == 'u' && is_hex(
                            s[i + 8],
                        ) && is_hex(s[i + 9]) && is_hex(s[i + 10]) && is_hex(s[i + 11]) {
                            let w = hex4(s, i + 8);
                            if 0xDC00 <= w <= 0xDFFF {
                                sp_string(
                                    s,
                                    i + 12,
                                    acc.push(
                                        ((0x10000 + (v - 0xD800) * 0x400 + (w - 0xDC00)) as u32)
                                            as char,
                                    ),
                                )
                            } else {
                                None
                            }
                        } else {
                            None
                        }
                    } else {
                        None
                    }
                } else {
                    None
                }
            } else {
                None
            }
        } else {
            None
        }
    } else if (s[i] as u32) < 0x20 {
        None
    } else {
        sp_string(s, i + 1, acc.push(s[i]))
    }
}

/// Parses what follows the `text` key: a colon and the quoted text,
/// whitespace allowed around the colon. Yields the text and the position
/// after its closing quote.
pub open spec fn sp_after_text_key(s: Seq<char>, i: int) -> Option<(Seq<char>, int)> {
    let j = skip_ws(s, i);
    if !(0 <= j < s.len() && s[j] == ':') {
        None
    } else {
        let k = skip_ws(s, j + 1);
        if !(0 <= k < s.len() && s[k] == '"') {
            None
        } else {
            sp_string(s, k + 1, Seq::empty())
        }
    }
}

/// Parses what follows the `completed` key: a colon and `true` or
/// `false`, whitespace allowed around the colon. Yields the flag and the
/// position after it.
pub open spec fn sp_after_completed_key(s: Seq<char>, i: int) -> Option<(bool, int)> {
    let j = skip_ws(s, i);
    if !(0 <= j < s.len() && s[j] == ':') {
        None
    } else {
        let k = skip_ws(s, j + 1);
        if match_at(s, k, enc_bool(true)) {
            Some((true, k + 4))
        } else if match_at(s, k, enc_bool(false)) {
            Some((false, k + 5))
        } else {
            None
        }
    }
}

/// Parses one task object at position `i`: braces around exactly the
/// `text` and `completed` members, in either order, with whitespace
/// allowed between tokens. Yields the task and the position after the
/// closing brace.
pub open spec fn sp_task(s: Seq<char>, i: int) -> Option<(TaskView, int)> {
    if !(0 <= i < s.len() && s[i] == '{') {
        None
    } else {
        let i1 = skip_ws(s, i + 1);
        if match_at(s, i1, key_text()) {
            match sp_after_text_key(s, i1 + 6) {
                None => None,
                Some((text, m)) => {
                    let j1 = skip_ws(s, m);
                    if !(0 <= j1 < s.len() && s[j1] == ',') {
                        None
                    } else {
                        let j2 = skip_ws(s, j1 + 1);
                        if !match_at(s, j2, key_completed()) {
                            None
                        } else {
                            match sp_after_completed_key(s, j2 + 11) {
                                None => None,
                                Some((b, k)) => {
                                    let k1 = skip_ws(s, k);
                                    if 0 <= k1 < s.len() && s[k1] == '}' {
                                        Some((TaskView { text, completed: b }, k1 + 1))
                                    } else {
                                        None
                                    }
                                },
                            }
                        }
                    }
                },
            }
        } else if match_at(s, i1, key_completed()) {
            match sp_after_completed_key(s, i1 + 11) {
                None => None,
                Some((b, m)) => {
                    let j1 = skip_ws(s, m);
                    if !(0 <= j1 < s.len() && s[j1] == ',') {
                        None
                    } else {
                        let j2 = skip_ws(s, j1 + 1);
                        if !match_at(s, j2, key_text()) {
                            None
                        } else {
                            match sp_after_text_key(s, j2 + 6) {
                                None => None,
                                Some((text, k)) => {
                                    let k1 = skip_ws(s, k);
                                    if 0 <= k1 < s.len() && s[k1] == '}' {
                                        Some((TaskView { text, completed: b }, k1 + 1))
                                    } else {
                                        None
                                    }
                                },
                            }
                        }
                    }
                },
            }
        } else {
            None
        }
    }
}

/// Parses the rest of the array from position `i` (just after a task):
/// either the closing bracket followed only by whitespace, or a comma
/// and one more task, repeated. `acc` is the tasks read so far.
pub open spec fn sp_tasks_rest(s: Seq<char>, i: int, acc: Seq<TaskView>) -> Option<Seq<TaskView>>
    decreases s.len() - i,
{
    let i1 = skip_ws(s, i);
    if !(0 <= i1 < s.len()) {
        None
    } else if s[i1] == ']' {
        if skip_ws(s, i1 + 1) == s.len() {
            Some(acc)
        } else {
            None
        }
    } else if s[i1] == ',' {
        let i2 = skip_ws(s, i1 + 1);
        match sp_task(s, i2) {
            None => None,
            Some((t, j)) => if i < j && j <= s.len() {
                sp_tasks_rest(s, j, acc.push(t))
            } else {
                None
            },
        }
    } else {
        None
    }
}

/// Parses a whole persisted value: a JSON array of task objects, with
/// whitespace allowed between tokens and around the array, and nothing
/// else before or after it.
pub open spec fn sp_tasks(s: Seq<char>) -> Option<Seq<TaskView>> {
    let i0 = skip_ws(s, 0);
    if !(0 <= i0 < s.len() && s[i0] == '[') {
        None
    } else {
        let i1 = skip_ws(s, i0 + 1);
        if 0 <= i1 < s.len() && s[i1] == ']' {
            if skip_ws(s, i1 + 1) == s.len() {
                Some(Seq::empty())
            } else {
                None
            }
        } else {
            match sp_task(s, i1) {
                None => None,
                Some((t, j)) => if i1 < j && j <= s.len() {
                    sp_tasks_rest(s, j, seq![t])
                } else {
                    None
                },
            }
        }
    }
}

proof fn lemma_match_at_concat(s: Seq<char>, i: int, p: Seq<char>, q: Seq<char>)
    requires
        match_at(s, i, p + q),
    ensures
        match_at(s, i, p),
        match_at(s, i + p.len(), q),
{
    let pq = p + q;
    assert forall|t: int| 0 <= t < p.len() implies s[i + t] == p[t] by {
        assert(s.subrange(i, i + pq.len())[t] == s[i + t]);
        assert(pq[t] == p[t]);
    }
    assert(s.subrange(i, i + p.len()) =~= p);
    assert forall|t: int| 0 <= t < q.len() implies s[i + p.len() + t] == q[t] by {
        assert(s.subrange(i, i + pq.len())[p.len() + t] == s[i + p.len() + t]);
        assert(pq[p.len() + t] == q[t]);
    }
    assert(s.subrange(i + p.len(), i + p.len() + q.len()) =~= q);
}

proof fn lemma_match_at_first(s: Seq<char>, i: int, p: Seq<char>)
    requires
        match_at(s, i, p),
        p.len() > 0,
    ensures
        s[i] == p[0],
{
    assert(s.subrange(i, i + p.len())[0] == s[i]);
}

proof fn lemma_sp_string_inverts(s: Seq<char>, i: int, text: Seq<char>, acc: Seq<char>)
    requires
        match_at(s, i, esc_str(text) + seq!['"']),
    ensures
        sp_string(s, i, acc) == Some((acc + text, i + esc_str(text).len() + 1)),
    decreases text.len(),
{
    if text.len() == 0 {
        lemma_match_at_first(s, i, esc_str(text) + seq!['"']);
        assert(s[i] == '"');
        assert(acc + text =~= acc);
    } else {
        let c = text[0];
        let rest = text.drop_first();
        assert(esc_str(text) == esc_char(c) + esc_str(rest));
        assert(esc_str(text) + seq!['"'] =~= esc_char(c) + (esc_str(rest) + seq!['"']));
        lemma_match_at_concat(s, i, esc_char(c), esc_str(rest) + seq!['"']);
        if c == '"' || c == '\\' {
            assert(s[i] == '\\') by {
                lemma_match_at_first(s, i, esc_char(c));
            }
            assert(s[i + 1] == c) by {
                assert(s.subrange(i, i + 2)[1] == s[i + 1]);
            }
            lemma_sp_string_inverts(s, i + 2, rest, acc.push(c));
            assert(acc.push(c) + rest =~= acc + text);
        } else if (c as u32) < 0x20 {
            let u = c as u32;
            assert forall|t: int| 0 <= t < 6 implies s[i + t] == esc_char(c)[t] by {
                assert(s.subrange(i, i + 6)[t] == s[i + t]);
            }
            assert(s[i] == '\\');
            assert(s[i + 1] == 'u');
            assert(s[i + 2] == '0');
            assert(s[i + 3] == '0');
            assert(s[i + 4] == hex_digit(((u / 16) as int)));
            assert(s[i + 5] == hex_digit(((u % 16) as int)));
            lemma_hex_digit((u / 16) as int);
            lemma_hex_digit((u % 16) as int);
            assert(hex_val(s[i + 2]) == 0);
            assert(hex_val(s[i + 3]) == 0);
            assert(hex4(s, i + 2) == u as int);
            vstd::utf8::char_u32_cast(c, u);
            assert((((hex4(s, i + 2)) as u32) as char) == c);
            lemma_sp_string_inverts(s, i + 6, rest, acc.push(c));
            assert(acc.push(c) + rest =~= acc + text);
        } else {
            assert(s[i] == c) by {
                lemma_match_at_first(s, i, esc_char(c));
            }
            lemma_sp_string_inverts(s, i + 1, rest, acc.push(c));
            assert(acc.push(c) + rest =~= acc + text);
        }
    }
}

proof fn lemma_sp_after_text_key_inverts(s: Seq<char>, i: int, text: Seq<char>)
    requires
        match_at(s, i, seq![':'] + seq!['"'] + (esc_str(text) + seq!['"'])),
    ensures
        sp_after_text_key(s, i) == Some((text, i + 3 + esc_str(text).len())),
{
    assert(seq![':'] + seq!['"'] + (esc_str(text) + seq!['"']) =~= seq![':'] + (seq!['"'] + (
    esc_str(text) + seq!['"'])));
    lemma_match_at_concat(s, i, seq![':'], seq!['"'] + (esc_str(text) + seq!['"']));
    lemma_match_at_concat(s, i + 1, seq!['"'], esc_str(text) + seq!['"']);
    lemma_match_at_first(s, i, seq![':']);
    lemma_match_at_first(s, i + 1, seq!['"']);
    assert(s[i] == ':');
    assert(s[i + 1] == '"');
    assert(skip_ws(s, i) == i);
    assert(skip_ws(s, i + 1) == i + 1);
    lemma_sp_string_inverts(s, i + 2, text, Seq::empty());
    assert(Seq::<char>::empty() + text =~= text);
}

proof fn lemma_sp_after_completed_key_inverts(s: Seq<char>, i: int, b: bool)
    requires
        match_at(s, i, seq![':'] + enc_bool(b)),
    ensures
        sp_after_completed_key(s, i) == Some((b, i + 1 + enc_bool(b).len())),
{
    lemma_match_at_concat(s, i, seq![':'], enc_bool(b));
    lemma_match_at_first(s, i, seq![':']);
    assert(s[i] == ':');
    assert(skip_ws(s, i) == i);
    lemma_match_at_first(s, i + 1, enc_bool(b));
    assert(skip_ws(s, i + 1) == i + 1);
    if !b {
        assert(!match_at(s, i + 1, enc_bool(true))) by {
            if match_at(s, i + 1, enc_bool(true)) {
                lemma_match_at_first(s, i + 1, enc_bool(true));
            }
        }
    }
}

/// The shape facts of a canonical task object that callers of the
/// inversion lemmas need: it opens with a brace and is never empty.
proof fn lemma_enc_task_shape(t: TaskView)
    ensures
        enc_task(t)[0] == '{',
        enc_task(t).len() > 1,
{
}

#[verifier::rlimit(100)]
proof fn lemma_sp_task_inverts(s: Seq<char>, i: int, t: TaskView)
    requires
        match_at(s, i, enc_task(t)),
    ensures
        sp_task(s, i) == Some((t, i + enc_task(t).len())),
{
    let tk = seq![':'] + seq!['"'] + (esc_str(t.text) + seq!['"']);
    let ck = seq![':'] + enc_bool(t.completed);
    assert(enc_task(t) =~= seq!['{'] + (key_text() + (tk + (seq![','] + (key_completed() + (ck
        + seq!['}']))))));
    lemma_match_at_concat(
        s,
        i,
        seq!['{'],
        key_text() + (tk + (seq![','] + (key_completed() + (ck + seq!['}'])))),
    );
    lemma_match_at_concat(s, i + 1, key_text(), tk + (seq![','] + (key_completed() + (ck
        + seq!['}']))));
    lemma_match_at_concat(s, i + 7, tk, seq![','] + (key_completed() + (ck + seq!['}'])));
    let m = i + 7 + tk.len() as int;
    lemma_match_at_concat(s, m, seq![','], key_completed() + (ck + seq!['}']));
    lemma_match_at_concat(s, m + 1, key_completed(), ck + seq!['}']);
    lemma_match_at_concat(s, m + 12, ck, seq!['}']);
    let kend = m + 12 + ck.len() as int;
    lemma_match_at_first(s, i, seq!['{']);
    lemma_match_at_first(s, i + 1, key_text());
    lemma_match_at_first(s, m, seq![',']);
    lemma_match_at_first(s, m + 1, key_completed());
    lemma_match_at_first(s, kend, seq!['}']);
    assert(s[i] == '{');
    assert(s[i + 1] == '"');
    assert(skip_ws(s, i + 1) == i + 1);
    lemma_sp_after_text_key_inverts(s, i + 7, t.text);
    assert(i + 7 + 3 + esc_str(t.text).len() == m);
    assert(s[m] == ',');
    assert(skip_ws(s, m) == m);
    assert(s[m + 1] == '"');
    assert(skip_ws(s, m + 1) == m + 1);
    lemma_sp_after_completed_key_inverts(s, m + 12, t.completed);
    assert(m + 12 + 1 + enc_bool(t.completed).len() == kend);
    assert(s[kend] == '}');
    assert(skip_ws(s, kend) == kend);
    assert(TaskView { text: t.text, completed: t.completed } =~= t);
    assert(i + enc_task(t).len() == kend + 1);
}

/// The tail of an encoded array after its first task: for each further
/// task a comma and its object, then the closing bracket.
spec fn enc_rest(ts: Seq<TaskView>) -> Seq<char>
    decreases ts.len(),
{
    if ts.len() == 0 {
        seq![']']
    } else {
        seq![','] + enc_task(ts[0]) + enc_rest(ts.drop_first())
    }
}

proof fn lemma_enc_list_rest(ts: Seq<TaskView>)
    requires
        ts.len() >= 1,
    ensures
        enc_list(ts) + seq![']'] =~= enc_task(ts[0]) + enc_rest(ts.drop_first()),
    decreases ts.len(),
{
    if ts.len() == 1 {
        assert(enc_rest(ts.drop_first()) == seq![']']);
    } else {
        let rest = ts.drop_first();
        lemma_enc_list_rest(rest);
        assert(enc_list(ts) == enc_task(ts[0]) + seq![','] + enc_list(rest));
        assert(enc_rest(rest) == seq![','] + enc_task(rest[0]) + enc_rest(rest.drop_first()));
        assert(enc_list(ts) + seq![']'] =~= enc_task(ts[0]) + seq![','] + (enc_list(rest)
            + seq![']']));
        assert(enc_task(ts[0]) + seq![','] + (enc_task(rest[0]) + enc_rest(rest.drop_first()))
            =~= enc_task(ts[0]) + enc_rest(rest));
    }
}

proof fn lemma_sp_rest_inverts(s: Seq<char>, i: int, ts: Seq<TaskView>, acc: Seq<TaskView>)
    requires
        match_at(s, i, enc_rest(ts)),
        i + enc_rest(ts).len() == s.len(),
    ensures
        sp_tasks_rest(s, i, acc) == Some(acc + ts),
    decreases ts.len(),
{
    if ts.len() == 0 {
        lemma_match_at_first(s, i, enc_rest(ts));
        assert(s[i] == ']');
        assert(skip_ws(s, i) == i);
        assert(i == s.len() - 1);
        assert(skip_ws(s, i + 1) == s.len());
        assert(acc + ts =~= acc);
    } else {
        let rest = ts.drop_first();
        assert(enc_rest(ts) =~= seq![','] + (enc_task(ts[0]) + enc_rest(rest)));
        lemma_match_at_concat(s, i, seq![','], enc_task(ts[0]) + enc_rest(rest));
        lemma_match_at_concat(s, i + 1, enc_task(ts[0]), enc_rest(rest));
        lemma_match_at_first(s, i, seq![',']);
        assert(s[i] == ',');
        assert(skip_ws(s, i) == i);
        lemma_enc_task_shape(ts[0]);
        lemma_match_at_first(s, i + 1, enc_task(ts[0]));
        assert(s[i + 1] == '{');
        assert(skip_ws(s, i + 1) == i + 1);
        lemma_sp_task_inverts(s, i + 1, ts[0]);
        let j = i + 1 + enc_task(ts[0]).len();
        lemma_sp_rest_inverts(s, j, rest, acc.push(ts[0]));
        assert(acc.push(ts[0]) + rest =~= acc + ts);
    }
}

#[verifier::rlimit(100)]
proof fn lemma_enc_tasks_decompose(ts: Seq<TaskView>)
    requires
        ts.len() > 0,
    ensures
        enc_tasks(ts).len() == 1 + enc_task(ts[0]).len() + enc_rest(ts.drop_first()).len(),
        match_at(enc_tasks(ts), 1, enc_task(ts[0])),
        match_at(enc_tasks(ts), 1 + enc_task(ts[0]).len() as int, enc_rest(ts.drop_first())),
        enc_tasks(ts)[0] == '[',
        enc_tasks(ts)[1] == '{',
        enc_task(ts[0]).len() > 1,
{
    let s = enc_tasks(ts);
    let body = enc_task(ts[0]) + enc_rest(ts.drop_first());
    lemma_enc_list_rest(ts);
    assert((seq!['['] + enc_list(ts)) + seq![']'] =~= seq!['['] + (enc_list(ts) + seq![']']));
    assert(s == seq!['['] + body);
    assert(match_at(s, 0, seq!['['] + body)) by {
        assert(s.subrange(0, (seq!['['] + body).len() as int) =~= s);
    }
    lemma_match_at_concat(s, 0, seq!['['], body);
    lemma_match_at_concat(s, 1, enc_task(ts[0]), enc_rest(ts.drop_first()));
    lemma_match_at_first(s, 0, seq!['[']);
    lemma_match_at_first(s, 1, enc_task(ts[0]));
    lemma_enc_task_shape(ts[0]);
}

proof fn lemma_sp_tasks_from_parts(s: Seq<char>, ts: Seq<TaskView>, j: int)
    requires
        ts.len() > 0,
        s.len() >= 2,
        s[0] == '[',
        s[1] == '{',
        1 < j <= s.len(),
        sp_task(s, 1) == Some((ts[0], j)),
        sp_tasks_rest(s, j, seq![ts[0]]) == Some(ts),
    ensures
        sp_tasks(s) == Some(ts),
{
    assert(skip_ws(s, 0) == 0);
    assert(skip_ws(s, 1) == 1);
}

proof fn lemma_roundtrip_nonempty(ts: Seq<TaskView>)
    requires
        ts.len() > 0,
    ensures
        sp_tasks(enc_tasks(ts)) == Some(ts),
{
    let s = enc_tasks(ts);
    let rest = ts.drop_first();
    let j: int = 1 + enc_task(ts[0]).len() as int;
    lemma_enc_tasks_decompose(ts);
    lemma_sp_task_inverts(s, 1, ts[0]);
    lemma_sp_rest_inverts(s, j, rest, seq![ts[0]]);
    assert(seq![ts[0]] + rest =~= ts);
    lemma_sp_tasks_from_parts(s, ts, j);
}

/// Law: parsing an encoded task list yields exactly the list that was
/// encoded — saving a store and loading it back keeps every task's text
/// and completion flag, in order.
pub proof fn lemma_decode_encode_roundtrip(ts: Seq<TaskView>)
    ensures
        sp_tasks(enc_tasks(ts)) == Some(ts),
{
    if ts.len() == 0 {
        let s = enc_tasks(ts);
        assert(s =~= seq!['[', ']']);
        assert(s[0] == '[' && s[1] == ']');
        assert(skip_ws(s, 0) == 0);
        assert(skip_ws(s, 1) == 1);
        assert(skip_ws(s, 2) == 2);
    } else {
        lemma_roundtrip_nonempty(ts);
    }
}

/// The hex value of a lower-case hex digit.
fn hex_value(c: char) -> (v: u8)
    requires
        is_hex(c),
    ensures
        v as int == hex_val(c),
        v < 16,
{
    let u = c as u32;
    if u >= 97 {
        (u - 97 + 10) as u8
    } else if u >= 65 {
        (u - 65 + 10) as u8
    } else {
        (u - 48) as u8
    }
}

/// The first position at or after `i` that holds no whitespace.
fn ws_end(s: &str, n: usize, i: usize) -> (r: usize)
    requires
        n == s@.len(),
        i <= n,
    ensures
        r as int == skip_ws(s@, i as int),
        i <= r <= n,
    decreases n - i,
{
    if i < n {
        let c = s.get_char(i);
        if c == ' ' || c == '\t' || c == '\n' || c == '\r' {
            ws_end(s, n, i + 1)
        } else {
            i
        }
    } else {
        i
    }
}

/// Whether the pattern `p` stands in `s` at position `i`.
fn match_str(s: &str, n: usize, i: usize, p: &str) -> (r: bool)
    requires
        n == s@.len(),
        i <= n,
    ensures
        r == match_at(s@, i as int, p@),
{
    let m = p.unicode_len();
    if n - i < m {
        return false;
    }
    let mut k: usize = 0;
    while k < m
        invariant
            n == s@.len(),
            m == p@.len(),
            i <= n,
            m <= n - i,
            k <= m,
            forall|t: int| 0 <= t < k ==> s@[i + t] == p@[t],
        decreases m - k,
    {
        if s.get_char(i + k) != p.get_char(k) {
            proof {
                assert(s@.subrange(i as int, i + p@.len())[k as int] == s@[i + k]);
            }
            return false;
        }
        k = k + 1;
    }
    proof {
        assert(s@.subrange(i as int, i + p@.len()) =~= p@);
    }
    true
}

/// Whether the character is a JSON hex digit.
fn is_hex_char(c: char) -> (r: bool)
    ensures
        r == is_hex(c),
{
    ('0' <= c && c <= '9') || ('a' <= c && c <= 'f') || ('A' <= c && c <= 'F')
}

/// The value of the four hex digits at position `i`.
fn hex4_value(s: &str, n: usize, i: usize) -> (v: u32)
    requires
        n == s@.len(),
        i + 4 <= n,
        is_hex(s@[i as int]),
        is_hex(s@[i as int + 1]),
        is_hex(s@[i as int + 2]),
        is_hex(s@[i as int + 3]),
    ensures
        v as int == hex4(s@, i as int),
        v < 0x10000,
{
    let d0 = hex_value(s.get_char(i));
    let d1 = hex_value(s.get_char(i + 1));
    let d2 = hex_value(s.get_char(i + 2));
    let d3 = hex_value(s.get_char(i + 3));
    (d0 as u32) * 0x1000 + (d1 as u32) * 0x100 + (d2 as u32) * 16 + (d3 as u32)
}

/// Parses the inside of a JSON string, mirroring `sp_string`.
fn p_string(s: &str, n: usize, i: usize, acc: String) -> (r: Option<(String, usize)>)
    requires
        n == s@.len(),
        i <= n,
    ensures
        (r is Some) == (sp_string(s@, i as int, acc@) is Some),
        r matches Some(p) ==> sp_string(s@, i as int, acc@) matches Some(q) && p.0@ == q.0 && p.1
            as int == q.1 && i < p.1 <= n,
    decreases n - i,
{
    if i >= n {
        return None;
    }
    let c = s.get_char(i);
    if c == '"' {
        Some((acc, i + 1))
    } else if c == '\\' {
        if i + 1 < n {
            let e = s.get_char(i + 1);
            if e == '"' || e == '\\' || e == '/' {
                let mut acc = acc;
                acc.push(e);
                p_string(s, n, i + 2, acc)
            } else if e == 'n' {
                let mut acc = acc;
                acc.push('\n');
                p_string(s, n, i + 2, acc)
            } else if e == 't' {
                let mut acc = acc;
                acc.push('\t');
                p_string(s, n, i + 2, acc)
            } else if e == 'r' {
                let mut acc = acc;
                acc.push('\r');
                p_string(s, n, i + 2, acc)
            } else if e == 'b' {
                let mut acc = acc;
                acc.push('\u{0008}');
                p_string(s, n, i + 2, acc)
            } else if e == 'f' {
                let mut acc = acc;
                acc.push('\u{000c}');
                p_string(s, n, i + 2, acc)
            } else if e == 'u' {
                if n - i > 5 && is_hex_char(s.get_char(i + 2)) && is_hex_char(s.get_char(i + 3))
                    && is_hex_char(s.get_char(i + 4)) && is_hex_char(s.get_char(i + 5)) {
                    let v = hex4_value(s, n, i + 2);
                    if v < 0xD800 || v > 0xDFFF {
                        let decoded = char::from_u32(v).unwrap();
                        proof {
                            vstd::utf8::char_u32_cast(decoded, v);
                        }
                        let mut acc = acc;
                        acc.push(decoded);
                        p_string(s, n, i + 6, acc)
                    } else if v <= 0xDBFF {
                        if n - i > 11 && s.get_char(i + 6) == '\\' && s.get_char(i + 7) == 'u'
                            && is_hex_char(s.get_char(i + 8)) && is_hex_char(s.get_char(i + 9))
                            && is_hex_char(s.get_char(i + 10)) && is_hex_char(
                            s.get_char(i + 11),
                        ) {
                            let w = hex4_value(s, n, i + 8);
                            if 0xDC00 <= w && w <= 0xDFFF {
                                let scalar: u32 = 0x10000 + (v - 0xD800) * 0x400 + (w - 0xDC00);
                                let decoded = char::from_u32(scalar).unwrap();
                                proof {
                                    vstd::utf8::char_u32_cast(decoded, scalar);
                                }
                                let mut acc = acc;
                                acc.push(decoded);
                                p_string(s, n, i + 12, acc)
                            } else {
                                None
                            }
                        } else {
                            None
                        }
                    } else {
                        None
                    }
                } else {
                    None
                }
            } else {
                None
            }
        } else {
            None
        }
    } else if (c as u32) < 0x20 {
        None
    } else {
        let mut acc = acc;
        acc.push(c);
        p_string(s, n, i + 1, acc)
    }
}

/// Parses a colon and the quoted text, mirroring `sp_after_text_key`.
fn p_after_text_key(s: &str, n: usize, i: usize) -> (r: Option<(String, usize)>)
    requires
        n == s@.len(),
        i <= n,
    ensures
        (r is Some) == (sp_after_text_key(s@, i as int) is Some),
        r matches Some(p) ==> sp_after_text_key(s@, i as int) matches Some(q) && p.0@ == q.0
            && p.1 as int == q.1 && i < p.1 <= n,
{
    let j = ws_end(s, n, i);
    if j >= n || s.get_char(j) != ':' {
        return None;
    }
    let k = ws_end(s, n, j + 1);
    if k >= n || s.get_char(k) != '"' {
        return None;
    }
    p_string(s, n, k + 1, String::new())
}

/// Parses a colon and the completion flag, mirroring
/// `sp_after_completed_key`.
fn p_after_completed_key(s: &str, n: usize, i: usize) -> (r: Option<(bool, usize)>)
    requires
        n == s@.len(),
        i <= n,
    ensures
        (r is Some) == (sp_after_completed_key(s@, i as int) is Some),
        r matches Some(p) ==> sp_after_completed_key(s@, i as int) matches Some(q) && p.0 == q.0
            && p.1 as int == q.1 && i < p.1 <= n,
{
    let j = ws_end(s, n, i);
    if j >= n || s.get_char(j) != ':' {
        return None;
    }
    let k = ws_end(s, n, j + 1);
    proof {
        reveal_strlit("true");
        assert("true"@ =~= enc_bool(true));
        reveal_strlit("false");
        assert("false"@ =~= enc_bool(false));
    }
    if match_str(s, n, k, "true") {
        Some((true, k + 4))
    } else if match_str(s, n, k, "false") {
        Some((false, k + 5))
    } else {
        None
    }
}

/// Parses one task object, mirroring `sp_task`.
fn p_task(s: &str, n: usize, i: usize) -> (r: Option<(Task, usize)>)
    requires
        n == s@.len(),
        i <= n,
    ensures
        (r is Some) == (sp_task(s@, i as int) is Some),
        r matches Some(p) ==> sp_task(s@, i as int) matches Some(q) && p.0@ == q.0 && p.1 as int
            == q.1 && i < p.1 <= n,
{
    if i >= n || s.get_char(i) != '{' {
        return None;
    }
    let i1 = ws_end(s, n, i + 1);
    proof {
        reveal_strlit("\"text\"");
        assert("\"text\""@ =~= key_text());
        reveal_strlit("\"completed\"");
        assert("\"completed\""@ =~= key_completed());
    }
    if match_str(s, n, i1, "\"text\"") {
        match p_after_text_key(s, n, i1 + 6) {
            None => None,
            Some((text, m)) => {
                let j1 = ws_end(s, n, m);
                if j1 >= n || s.get_char(j1) != ',' {
                    return None;
                }
                let j2 = ws_end(s, n, j1 + 1);
                if !match_str(s, n, j2, "\"completed\"") {
                    return None;
                }
                match p_after_completed_key(s, n, j2 + 11) {
                    None => None,
                    Some((b, k)) => {
                        let k1 = ws_end(s, n, k);
                        if k1 < n && s.get_char(k1) == '}' {
                            Some((Task { text, completed: b }, k1 + 1))
                        } else {
                            None
                        }
                    },
                }
            },
        }
    } else if match_str(s, n, i1, "\"completed\"") {
        match p_after_completed_key(s, n, i1 + 11) {
            None => None,
            Some((b, m)) => {
                let j1 = ws_end(s, n, m);
                if j1 >= n || s.get_char(j1) != ',' {
                    return None;
                }
                let j2 = ws_end(s, n, j1 + 1);
                if !match_str(s, n, j2, "\"text\"") {
                    return None;
                }
                match p_after_text_key(s, n, j2 + 6) {
                    None => None,
                    Some((text, k)) => {
                        let k1 = ws_end(s, n, k);
                        if k1 < n && s.get_char(k1) == '}' {
                            Some((Task { text, completed: b }, k1 + 1))
                        } else {
                            None
                        }
                    },
                }
            },
        }
    } else {
        None
    }
}

/// Parses a whole persisted value, mirroring `sp_tasks`: the task list,
/// or nothing if the input is not a well-formed task array.
pub fn decode_tasks(s: &str) -> (r: Option<Vec<Task>>)
    ensures
        (r is Some) == (sp_tasks(s@) is Some),
        r matches Some(v) ==> sp_tasks(s@) matches Some(ts) && v@.map_values(|t: Task| t@) == ts,
{
    let n = s.unicode_len();
    let i0 = ws_end(s, n, 0);
    if i0 >= n || s.get_char(i0) != '[' {
        return None;
    }
    let i1 = ws_end(s, n, i0 + 1);
    if i1 < n && s.get_char(i1) == ']' {
        if ws_end(s, n, i1 + 1) == n {
            let v: Vec<Task> = Vec::new();
            proof {
                assert(v@.map_values(|t: Task| t@) =~= Seq::<TaskView>::empty());
            }
            return Some(v);
        } else {
            return None;
        }
    }
    match p_task(s, n, i1) {
        None => None,
        Some((t, first_end)) => {
            let mut out: Vec<Task> = Vec::new();
            out.push(t);
            let mut j = first_end;
            proof {
                assert(out@.map_values(|x: Task| x@) =~= seq![t@]);
                assert(sp_tasks(s@) == sp_tasks_rest(s@, j as int, out@.map_values(|x: Task| x@)));
            }
            loop
                invariant
                    n == s@.len(),
                    j <= n,
                    sp_tasks(s@) == sp_tasks_rest(s@, j as int, out@.map_values(|x: Task| x@)),
                decreases n - j,
            {
                let j1 = ws_end(s, n, j);
                if j1 >= n {
                    return None;
                }
                let c = s.get_char(j1);
                if c == ']' {
                    if ws_end(s, n, j1 + 1) == n {
                        return Some(out);
                    } else {
                        return None;
                    }
                } else if c == ',' {
                    let j2 = ws_end(s, n, j1 + 1);
                    match p_task(s, n, j2) {
                        None => {
                            return None;
                        },
                        Some((t2, jn)) => {
                            proof {
                                assert(out@.map_values(|x: Task| x@).push(t2@) =~= out@.push(
                                    t2,
                                ).map_values(|x: Task| x@));
                            }
                            out.push(t2);
                            j = jn;
                        },
                    }
                } else {
                    return None;
                }
            }
        },
    }
}

impl Todo {
    /// The JSON value this store is persisted as.
    pub fn to_json(&self) -> (r: String)
        ensures
            r@ == enc_tasks(self@.tasks),
    {
        encode_tasks(&self.tasks)
    }

    /// Rebuilds a store from persisted data. `None` stands for a missing
    /// file — a first run — and yields the empty store, not an error;
    /// data that does not parse as a task array is a serialization error.
    pub fn from_json(data: Option<&str>) -> (r: Result<Todo, PersistenceError>)
        ensures
            data is None ==> (r matches Ok(t) && t@ == empty_store()),
            data matches Some(d) ==> match sp_tasks(d@) {
                Some(ts) => r matches Ok(t) && t@.tasks == ts && t@.current == 0 && t@.mode
                    == Mode::Normal && t@.text == Seq::<char>::empty(),
                None => r matches Err(e) && e == PersistenceError::Serialization,
            },
            r matches Ok(t) ==> t.wf(),
    {
        match data {
            None => Ok(Todo::new()),
            Some(d) => match decode_tasks(d) {
                None => Err(PersistenceError::Serialization),
                Some(tasks) => {
                    let t = Todo {
                        tasks,
                        new_task_text: String::new(),
                        mode: Mode::Normal,
                        current_task: 0,
                    };
                    Ok(t)
                },
            },
        }
    }
}

/// The one-line command and JSON body sent to a remote peer to replace
/// its task list.
pub fn write_request(tasks: &Vec<Task>) -> (r: String)
    ensures
        r@ == seq!['w', 'r', 'i', 't', 'e', '\n'] + enc_tasks(tasks@.map_values(|t: Task| t@)),
{
    let mut out = "write\n".to_owned();
    proof {
        reveal_strlit("write\n");
        assert("write\n"@ =~= seq!['w', 'r', 'i', 't', 'e', '\n']);
    }
    let body = encode_tasks(tasks);
    out.append(body.as_str());
    out
}

/// The one-line command asking a remote peer for its task list.
pub fn read_request() -> (r: String)
    ensures
        r@ == seq!['r', 'e', 'a', 'd', '\n'],
{
    proof {
        reveal_strlit("read\n");
        assert("read\n"@ =~= seq!['r', 'e', 'a', 'd', '\n']);
    }
    "read\n".to_owned()
}

} // verus!

