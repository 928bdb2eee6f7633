//! Repair of the almost-JSON that language models return: extraction of the
//! JSON block from surrounding prose, Python literals, single quotes, missing
//! commas, raw newlines in strings, trailing commas and truncation.
use vstd::prelude::*;
use crate::text::{
    chars_of, find, find_from, occurs_at, find_char, find_char_from, find_vec, lemma_find_from, lemma_occurs_char,
    slice_vec, string_of, string_of_range, trim, trim_bounds, starts_with, ends_with,
    matches_at, replace_all, replace_vec, push_str,
};

verus! {

// ---------------------------------------------------------------------------
// Extraction of the JSON block
// ---------------------------------------------------------------------------

pub open spec fn fence_json() -> Seq<char> {
    seq!['`', '`', '`', 'j', 's', 'o', 'n']
}

pub open spec fn fence() -> Seq<char> {
    seq!['`', '`', '`']
}

/// Scan of a brace-delimited object starting at `i` with nesting `depth`:
/// the index of the `}` that brings the depth back to zero. Quotes toggle
/// string mode, a backslash escapes the next character.
pub open spec fn brace_close(cs: Seq<char>, i: int, depth: int, in_str: bool, esc: bool) -> Option<
    int,
>
    decreases cs.len() - i,
{
    if i < 0 || i >= cs.len() {
        None
    } else {
        let c = cs[i];
        if esc {
            brace_close(cs, i + 1, depth, in_str, false)
        } else if c == '"' {
            brace_close(cs, i + 1, depth, !in_str, false)
        } else if c == '\\' {
            brace_close(cs, i + 1, depth, in_str, true)
        } else if c == '{' && !in_str {
            brace_close(cs, i + 1, depth + 1, in_str, false)
        } else if c == '}' && !in_str {
            if depth - 1 == 0 {
                Some(i)
            } else {
                brace_close(cs, i + 1, depth - 1, in_str, false)
            }
        } else {
            brace_close(cs, i + 1, depth, in_str, false)
        }
    }
}

/// The block between the first "```json" fence and the next "```", trimmed.
pub open spec fn json_fenced_block(t: Seq<char>) -> Option<Seq<char>> {
    match find(t, fence_json()) {
        Some(a) => {
            let after = t.skip(a + 7);
            match find(after, fence()) {
                Some(e) => Some(trim(after.take(e))),
                None => None,
            }
        },
        None => None,
    }
}

/// The block between the first two "```" fences, trimmed, when it starts
/// with `{` or `[`.
pub open spec fn plain_fenced_block(t: Seq<char>) -> Option<Seq<char>> {
    match find(t, fence()) {
        Some(a) => {
            let after = t.skip(a + 3);
            match find(after, fence()) {
                Some(e) => {
                    let block = trim(after.take(e));
                    if block.len() > 0 && (block[0] == '{' || block[0] == '[') {
                        Some(block)
                    } else {
                        None
                    }
                },
                None => None,
            }
        },
        None => None,
    }
}

/// The first balanced `{ ... }` object of the trimmed text.
pub open spec fn braced_block(t: Seq<char>) -> Option<Seq<char>> {
    let tr = trim(t);
    match find_char_from(tr, '{', 0) {
        Some(s) => match brace_close(tr, s, 0, false, false) {
            Some(k) => Some(tr.subrange(s, k + 1)),
            None => None,
        },
        None => None,
    }
}

/// What `extract_json_block` returns: the first of the three extractions
/// that applies.
pub open spec fn json_block(t: Seq<char>) -> Option<Seq<char>> {
    if json_fenced_block(t) is Some {
        json_fenced_block(t)
    } else if plain_fenced_block(t) is Some {
        plain_fenced_block(t)
    } else {
        braced_block(t)
    }
}

fn fence_json_vec() -> (v: Vec<char>)
    ensures
        v@ == fence_json(),
{
    let v = vec!['`', '`', '`', 'j', 's', 'o', 'n'];
    assert(v@ =~= fence_json());
    v
}

fn fence_vec() -> (v: Vec<char>)
    ensures
        v@ == fence(),
{
    let v = vec!['`', '`', '`'];
    assert(v@ =~= fence());
    v
}

fn brace_close_exec(cs: &Vec<char>, s: usize) -> (r: Option<usize>)
    requires
        s < cs.len(),
        cs@[s as int] == '{',
    ensures
        match r {
            Some(k) => brace_close(cs@, s as int, 0, false, false) == Some(k as int) && s <= k
                < cs.len(),
            None => brace_close(cs@, s as int, 0, false, false) is None,
        },
{
    let mut depth: usize = 1;
    let mut in_str = false;
    let mut esc = false;
    let mut i = s + 1;
    assert(brace_close(cs@, s as int, 0, false, false) == brace_close(cs@, s + 1, 1, false, false));
    while i < cs.len()
        invariant
            s < i <= cs.len(),
            1 <= depth <= i - s,
            brace_close(cs@, s as int, 0, false, false) == brace_close(
                cs@,
                i as int,
                depth as int,
                in_str,
                esc,
            ),
        decreases cs.len() - i,
    {
        let c = cs[i];
        if esc {
            esc = false;
        } else if c == '"' {
            in_str = !in_str;
        } else if c == '\\' {
            esc = true;
        } else if c == '{' && !in_str {
            depth = depth + 1;
        } else if c == '}' && !in_str {
            if depth == 1 {
                return Some(i);
            }
            depth = depth - 1;
        }
        i = i + 1;
    }
    None
}

/// Extracts the JSON block from arbitrary text: a "```json" fenced block, else
/// a "```" fenced block that starts with `{` or `[`, else the first balanced
/// `{ ... }` object of the trimmed text.
pub fn extract_json_block(text: &str) -> (r: Option<String>)
    ensures
        match r {
            Some(b) => json_block(text@) == Some(b@),
            None => json_block(text@) is None,
        },
{
    let t = chars_of(text);
    let fj = fence_json_vec();
    let f = fence_vec();
    if let Some(a) = find_vec(&t, &fj, 0) {
        proof {
            lemma_find_from(t@, fence_json(), 0);
        }
        let after = slice_vec(&t, a + 7, t.len());
        assert(after@ =~= t@.skip(a + 7));
        if let Some(e) = find_vec(&after, &f, 0) {
            proof {
                lemma_find_from(after@, fence(), 0);
            }
            let (lo, hi) = trim_bounds(&after, 0, e);
            assert(after@.subrange(0, e as int) =~= after@.take(e as int));
            return Some(string_of_range(&after, lo, hi));
        }
    }
    if let Some(a) = find_vec(&t, &f, 0) {
        proof {
            lemma_find_from(t@, fence(), 0);
            assert(find_from(t@, fence(), 0) == Some(a as int));
            assert(occurs_at(t@, fence(), a as int));
            assert(fence().len() == 3);
        }
        assert(a + 3 <= t.len());
        let start: usize = a + 3;
        let after = slice_vec(&t, start, t.len());
        assert(after@ =~= t@.skip(a + 3));
        if let Some(e) = find_vec(&after, &f, 0) {
            proof {
                lemma_find_from(after@, fence(), 0);
            }
            let (lo, hi) = trim_bounds(&after, 0, e);
            assert(after@.subrange(0, e as int) =~= after@.take(e as int));
            if lo < hi && (after[lo] == '{' || after[lo] == '[') {
                return Some(string_of_range(&after, lo, hi));
            }
        }
    }
    let (lo, hi) = trim_bounds(&t, 0, t.len());
    assert(t@.subrange(0, t@.len() as int) =~= t@);
    let tr = slice_vec(&t, lo, hi);
    if let Some(s) = find_char(&tr, '{', 0) {
        proof {
            lemma_find_from(tr@, seq!['{'], 0);
            lemma_occurs_char(tr@, '{', s as int);
        }
        if let Some(k) = brace_close_exec(&tr, s) {
            return Some(string_of_range(&tr, s, k + 1));
        }
    }
    None
}

// ---------------------------------------------------------------------------
// Python literals
// ---------------------------------------------------------------------------

/// Whether a Python literal (`True`, `False`, `None`) is tested at `c`.
pub open spec fn is_lit_start(c: char) -> bool {
    c == 'T' || c == 'F' || c == 'N'
}

/// The Python literal that starts with `c`.
pub open spec fn lit_chars(c: char) -> Seq<char> {
    if c == 'T' {
        seq!['T', 'r', 'u', 'e']
    } else if c == 'F' {
        seq!['F', 'a', 'l', 's', 'e']
    } else {
        seq!['N', 'o', 'n', 'e']
    }
}

/// The JSON spelling of the Python literal that starts with `c`.
pub open spec fn lit_json(c: char) -> Seq<char> {
    if c == 'T' {
        seq!['t', 'r', 'u', 'e']
    } else if c == 'F' {
        seq!['f', 'a', 'l', 's', 'e']
    } else {
        seq!['n', 'u', 'l', 'l']
    }
}

/// How many characters must follow `c` before the literal is tested.
pub open spec fn lit_need(c: char) -> int {
    if c == 'F' {
        4
    } else {
        3
    }
}

/// Whether the characters from position `i` on begin with `pat`.
pub open spec fn chars_start(cs: Seq<char>, i: int, pat: Seq<char>) -> bool {
    0 <= i && i + pat.len() <= cs.len() && cs.subrange(i, i + pat.len()) == pat
}

/// Output of the Python-literal pass from character `i` on. At a `T`, `F` or
/// `N` outside a double-quoted string with enough characters after it, a
/// `True`, `False` or `None` starting there is replaced by `true`, `false`,
/// `null`.
pub open spec fn py_lits(cs: Seq<char>, i: int, in_str: bool, esc: bool) -> Seq<char>
    decreases cs.len() - i,
{
    if i < 0 || i >= cs.len() {
        seq![]
    } else {
        let c = cs[i];
        if esc {
            seq![c] + py_lits(cs, i + 1, in_str, false)
        } else if c == '"' {
            seq![c] + py_lits(cs, i + 1, !in_str, false)
        } else if c == '\\' {
            seq![c] + py_lits(cs, i + 1, in_str, true)
        } else if is_lit_start(c) && !in_str && i + lit_need(c) < cs.len() {
            if chars_start(cs, i, lit_chars(c)) {
                lit_json(c) + py_lits(cs, i + lit_chars(c).len(), in_str, false)
            } else {
                seq![c] + py_lits(cs, i + 1, in_str, false)
            }
        } else {
            seq![c] + py_lits(cs, i + 1, in_str, false)
        }
    }
}

/// `fix_python_literals` of a text.
pub open spec fn python_literals_fixed(t: Seq<char>) -> Seq<char> {
    py_lits(t, 0, false, false)
}

fn chars_start_exec(cs: &Vec<char>, i: usize, pat: &[char]) -> (b: bool)
    ensures
        b == chars_start(cs@, i as int, pat@),
{
    if i > cs.len() || pat.len() > cs.len() - i {
        return false;
    }
    let mut k: usize = 0;
    while k < pat.len()
        invariant
            i + pat.len() <= cs.len(),
            k <= pat.len(),
            forall|m: int| 0 <= m < k ==> cs@[i + m] == pat@[m],
        decreases pat.len() - k,
    {
        if cs[i + k] != pat[k] {
            assert(cs@.subrange(i as int, i + pat.len())[k as int] != pat@[k as int]);
            return false;
        }
        k = k + 1;
    }
    assert(cs@.subrange(i as int, i + pat.len()) =~= pat@);
    true
}

fn push_seq4(out: &mut String, a: char, b: char, c: char, d: char)
    ensures
        final(out)@ == old(out)@ + seq![a, b, c, d],
{
    out.push(a);
    out.push(b);
    out.push(c);
    out.push(d);
    assert(out@ =~= old(out)@ + seq![a, b, c, d]);
}

/// Replaces the Python literals `True`, `False`, `None` outside of
/// double-quoted strings by `true`, `false`, `null`.
pub fn fix_python_literals(text: &str) -> (out: String)
    ensures
        out@ == python_literals_fixed(text@),
{
    let cs = chars_of(text);
    let tb: [char; 4] = ['T', 'r', 'u', 'e'];
    let fb: [char; 5] = ['F', 'a', 'l', 's', 'e'];
    let nb: [char; 4] = ['N', 'o', 'n', 'e'];
    assert(tb@ =~= lit_chars('T'));
    assert(fb@ =~= lit_chars('F'));
    assert(nb@ =~= lit_chars('N'));
    let mut out = String::new();
    let mut in_str = false;
    let mut esc = false;
    let mut i: usize = 0;
    let len = cs.len();
    while i < len
        invariant
            len == cs.len(),
            cs@ == text@,
            tb@ == lit_chars('T'),
            fb@ == lit_chars('F'),
            nb@ == lit_chars('N'),
            i <= len,
            out@ + py_lits(cs@, i as int, in_str, esc) == py_lits(cs@, 0, false, false),
        decreases len - i,
    {
        let ghost o = out@;
        let ghost oi = i;
        let ghost oin = in_str;
        let ghost oesc = esc;
        let c = cs[i];
        if esc {
            esc = false;
            out.push(c);
            i = i + 1;
        } else if c == '"' {
            in_str = !in_str;
            out.push(c);
            i = i + 1;
        } else if c == '\\' {
            esc = true;
            out.push(c);
            i = i + 1;
        } else if c == 'T' && !in_str && len - i > 3 {
            if chars_start_exec(&cs, i, &tb) {
                push_seq4(&mut out, 't', 'r', 'u', 'e');
                i = i + 4;
            } else {
                out.push(c);
                i = i + 1;
            }
        } else if c == 'F' && !in_str && len - i > 4 {
            if chars_start_exec(&cs, i, &fb) {
                push_seq4(&mut out, 'f', 'a', 'l', 's');
                out.push('e');
                assert(out@ =~= o + seq!['f', 'a', 'l', 's', 'e']);
                i = i + 5;
            } else {
                out.push(c);
                i = i + 1;
            }
        } else if c == 'N' && !in_str && len - i > 3 {
            if chars_start_exec(&cs, i, &nb) {
                push_seq4(&mut out, 'n', 'u', 'l', 'l');
                i = i + 4;
            } else {
                out.push(c);
                i = i + 1;
            }
        } else {
            out.push(c);
            i = i + 1;
        }
        proof {
            assert(out@ + py_lits(cs@, i as int, in_str, esc) =~= o + py_lits(cs@, oi as int, oin, oesc));
        }
    }
    assert(py_lits(cs@, i as int, in_str, esc) =~= Seq::<char>::empty());
    assert(out@ =~= out@ + Seq::<char>::empty());
    out
}


// ---------------------------------------------------------------------------
// Single-quoted strings
// ---------------------------------------------------------------------------

/// Output of the single-quote pass from character `i` on: a `'` outside a
/// double-quoted string opens or closes a single-quoted string and becomes
/// `"`. Inside a single-quoted string `\'` becomes `'` and a backslash is
/// otherwise kept; outside, an escaped character is written after a doubled
/// backslash (the backslash is written when seen and again with the escaped
/// character).
pub open spec fn single_quotes(cs: Seq<char>, i: int, in_d: bool, in_s: bool, esc: bool) -> Seq<
    char,
>
    decreases cs.len() - i,
{
    if i < 0 || i >= cs.len() {
        seq![]
    } else {
        let c = cs[i];
        if esc {
            let emitted = if in_s && c == '\'' {
                seq!['\'']
            } else {
                seq!['\\', c]
            };
            emitted + single_quotes(cs, i + 1, in_d, in_s, false)
        } else if c == '\\' {
            (if !in_s {
                seq![c]
            } else {
                seq![]
            }) + single_quotes(cs, i + 1, in_d, in_s, true)
        } else if c == '"' {
            seq![c] + single_quotes(cs, i + 1, if !in_s {
                !in_d
            } else {
                in_d
            }, in_s, false)
        } else if c == '\'' {
            if !in_d {
                seq!['"'] + single_quotes(cs, i + 1, in_d, !in_s, false)
            } else {
                seq![c] + single_quotes(cs, i + 1, in_d, in_s, false)
            }
        } else {
            seq![c] + single_quotes(cs, i + 1, in_d, in_s, false)
        }
    }
}

/// Converts single-quoted strings to double-quoted strings.
pub fn fix_single_quoted_strings(text: &str) -> (out: String)
    ensures
        out@ == single_quotes(text@, 0, false, false, false),
{
    let cs = chars_of(text);
    let mut out = String::new();
    let mut in_d = false;
    let mut in_s = false;
    let mut esc = false;
    let mut i: usize = 0;
    while i < cs.len()
        invariant
            cs@ == text@,
            i <= cs.len(),
            out@ + single_quotes(cs@, i as int, in_d, in_s, esc) == single_quotes(
                cs@,
                0,
                false,
                false,
                false,
            ),
        decreases cs.len() - i,
    {
        let ghost o = out@;
        let ghost (oi, od, os, oe) = (i, in_d, in_s, esc);
        let c = cs[i];
        if esc {
            esc = false;
            if in_s && c == '\'' {
                out.push('\'');
            } else {
                out.push('\\');
                out.push(c);
            }
        } else if c == '\\' {
            esc = true;
            if !in_s {
                out.push(c);
            }
        } else if c == '"' {
            if !in_s {
                in_d = !in_d;
            }
            out.push(c);
        } else if c == '\'' {
            if !in_d {
                in_s = !in_s;
                out.push('"');
            } else {
                out.push(c);
            }
        } else {
            out.push(c);
        }
        i = i + 1;
        proof {
            assert(out@ + single_quotes(cs@, i as int, in_d, in_s, esc) =~= o + single_quotes(
                cs@,
                oi as int,
                od,
                os,
                oe,
            ));
        }
    }
    assert(out@ + single_quotes(cs@, i as int, in_d, in_s, esc) =~= out@);
    out
}

// ---------------------------------------------------------------------------
// Truncated input: unclosed strings and brackets
// ---------------------------------------------------------------------------

/// State of the bracket scan after the first `i` characters: the closers
/// still owed (innermost last) and whether a string is open. A `}` or `]`
/// outside a string pops the innermost closer, whatever it is.
pub open spec fn bracket_scan(cs: Seq<char>, i: int) -> (Seq<char>, bool, bool)
    decreases i,
{
    if i <= 0 || i > cs.len() {
        (seq![], false, false)
    } else {
        let (stack, in_str, esc) = bracket_scan(cs, i - 1);
        let c = cs[i - 1];
        if esc {
            (stack, in_str, false)
        } else if c == '\\' {
            (stack, in_str, true)
        } else if c == '"' {
            (stack, !in_str, false)
        } else if c == '{' && !in_str {
            (stack.push('}'), in_str, false)
        } else if c == '[' && !in_str {
            (stack.push(']'), in_str, false)
        } else if (c == '}' || c == ']') && !in_str {
            (if stack.len() > 0 {
                stack.drop_last()
            } else {
                stack
            }, in_str, false)
        } else {
            (stack, in_str, false)
        }
    }
}

/// `close_unclosed_brackets`: the text, then a `"` if a string is left open,
/// then the owed closers, innermost first.
pub open spec fn brackets_closed(t: Seq<char>) -> Seq<char> {
    let (stack, in_str, _esc) = bracket_scan(t, t.len() as int);
    t + (if in_str {
        seq!['"']
    } else {
        seq![]
    }) + stack.reverse()
}

/// Closes the strings and brackets that a truncated text leaves open.
pub fn close_unclosed_brackets(text: &str) -> (out: String)
    ensures
        out@ == brackets_closed(text@),
{
    let cs = chars_of(text);
    let mut stack: Vec<char> = Vec::new();
    let mut in_str = false;
    let mut esc = false;
    let mut i: usize = 0;
    while i < cs.len()
        invariant
            cs@ == text@,
            i <= cs.len(),
            bracket_scan(cs@, i as int) == (stack@, in_str, esc),
        decreases cs.len() - i,
    {
        let c = cs[i];
        if esc {
            esc = false;
        } else if c == '\\' {
            esc = true;
        } else if c == '"' {
            in_str = !in_str;
        } else if c == '{' && !in_str {
            stack.push('}');
        } else if c == '[' && !in_str {
            stack.push(']');
        } else if (c == '}' || c == ']') && !in_str {
            if stack.len() > 0 {
                stack.pop();
            }
        }
        i = i + 1;
        proof {
            assert(stack@ =~= bracket_scan(cs@, i as int).0);
        }
    }
    let mut out = string_of(&cs);
    if in_str {
        out.push('"');
    }
    let ghost before = out@;
    let mut k = stack.len();
    while k > 0
        invariant
            k <= stack.len(),
            out@ == before + stack@.reverse().take(stack.len() - k),
        decreases k,
    {
        k = k - 1;
        out.push(stack[k]);
        proof {
            assert(stack@.reverse().take(stack.len() - k) =~= stack@.reverse().take(
                stack.len() - k - 1,
            ).push(stack@[k as int]));
        }
    }
    proof {
        assert(stack@.reverse().take(stack@.len() as int) =~= stack@.reverse());
        assert(out@ =~= brackets_closed(text@));
    }
    out
}

/// Output of the unclosed-string pass from character `i` on: a raw newline
/// inside a string is written as `\n`.
pub open spec fn newlines_escaped(cs: Seq<char>, i: int, in_str: bool, esc: bool) -> Seq<char>
    decreases cs.len() - i,
{
    if i < 0 || i >= cs.len() {
        if in_str {
            seq!['"']
        } else {
            seq![]
        }
    } else {
        let c = cs[i];
        if esc {
            seq![c] + newlines_escaped(cs, i + 1, in_str, false)
        } else if c == '"' {
            seq![c] + newlines_escaped(cs, i + 1, !in_str, false)
        } else if c == '\\' {
            seq![c] + newlines_escaped(cs, i + 1, in_str, true)
        } else if c == '\n' && in_str {
            seq!['\\', 'n'] + newlines_escaped(cs, i + 1, in_str, false)
        } else {
            seq![c] + newlines_escaped(cs, i + 1, in_str, false)
        }
    }
}

/// Escapes raw newlines inside strings and closes a string left open.
pub fn fix_unclosed_strings(text: &str) -> (out: String)
    ensures
        out@ == newlines_escaped(text@, 0, false, false),
{
    let cs = chars_of(text);
    let mut out = String::new();
    let mut in_str = false;
    let mut esc = false;
    let mut i: usize = 0;
    while i < cs.len()
        invariant
            cs@ == text@,
            i <= cs.len(),
            out@ + newlines_escaped(cs@, i as int, in_str, esc) == newlines_escaped(
                cs@,
                0,
                false,
                false,
            ),
        decreases cs.len() - i,
    {
        let ghost o = out@;
        let ghost (oi, ois, oe) = (i, in_str, esc);
        let c = cs[i];
        if esc {
            esc = false;
            out.push(c);
        } else if c == '"' {
            in_str = !in_str;
            out.push(c);
        } else if c == '\\' {
            esc = true;
            out.push(c);
        } else if c == '\n' && in_str {
            out.push('\\');
            out.push('n');
        } else {
            out.push(c);
        }
        i = i + 1;
        proof {
            assert(out@ + newlines_escaped(cs@, i as int, in_str, esc) =~= o + newlines_escaped(
                cs@,
                oi as int,
                ois,
                oe,
            ));
        }
    }
    let ghost o = out@;
    if in_str {
        out.push('"');
    }
    assert(out@ =~= o + newlines_escaped(cs@, i as int, in_str, esc));
    out
}

// ---------------------------------------------------------------------------
// Missing commas
// ---------------------------------------------------------------------------

/// First index `>= j` that holds neither a space nor a tab.
pub open spec fn skip_blanks(cs: Seq<char>, j: int) -> int
    decreases cs.len() - j,
{
    if 0 <= j < cs.len() && (cs[j] == ' ' || cs[j] == '\t') {
        skip_blanks(cs, j + 1)
    } else {
        j
    }
}

/// Where a missing comma is inserted after the closer at `i`: the index of
/// the `{`, `[` or `"` that starts the next line, when the closer is followed
/// by blanks, an optional comma, a line break (`\n` or `\r\n`) and blanks.
pub open spec fn comma_gap(cs: Seq<char>, i: int) -> Option<int> {
    let c = cs[i];
    if (c == '}' || c == ']' || c == '"') && i + 1 < cs.len() {
        let j0 = skip_blanks(cs, i + 1);
        let j1 = if j0 < cs.len() && cs[j0] == ',' {
            j0 + 1
        } else {
            j0
        };
        let (found, j2) = if j1 < cs.len() && cs[j1] == '\n' {
            (true, j1 + 1)
        } else if j1 < cs.len() && cs[j1] == '\r' && j1 + 1 < cs.len() && cs[j1 + 1] == '\n' {
            (true, j1 + 2)
        } else {
            (false, j1)
        };
        if found {
            let j3 = skip_blanks(cs, j2);
            if j3 < cs.len() && (cs[j3] == '{' || cs[j3] == '[' || cs[j3] == '"') {
                Some(j3)
            } else {
                None
            }
        } else {
            None
        }
    } else {
        None
    }
}

pub proof fn lemma_skip_blanks(cs: Seq<char>, j: int)
    requires
        0 <= j,
    ensures
        j <= skip_blanks(cs, j),
        j <= cs.len() ==> skip_blanks(cs, j) <= cs.len(),
        forall|k: int| j <= k < skip_blanks(cs, j) ==> (cs[k] == ' ' || cs[k] == '\t'),
    decreases cs.len() - j,
{
    if 0 <= j < cs.len() && (cs[j] == ' ' || cs[j] == '\t') {
        lemma_skip_blanks(cs, j + 1);
    }
}

/// Output of the comma pass from character `i` on: the gap after a closer
/// that is followed on the next line by a new value becomes ",\n".
pub open spec fn commas_inserted(cs: Seq<char>, i: int) -> Seq<char>
    decreases cs.len() - i,
{
    if i < 0 || i >= cs.len() {
        seq![]
    } else {
        match comma_gap(cs, i) {
            Some(j) => if i < j {
                seq![cs[i], ',', '\n'] + commas_inserted(cs, j)
            } else {
                seq![]
            },
            None => seq![cs[i]] + commas_inserted(cs, i + 1),
        }
    }
}

fn skip_blanks_exec(cs: &Vec<char>, j: usize) -> (r: usize)
    requires
        j <= cs.len(),
    ensures
        r == skip_blanks(cs@, j as int),
        j <= r <= cs.len(),
{
    let mut k = j;
    while k < cs.len() && (cs[k] == ' ' || cs[k] == '\t')
        invariant
            j <= k <= cs.len(),
            skip_blanks(cs@, j as int) == skip_blanks(cs@, k as int),
        decreases cs.len() - k,
    {
        k = k + 1;
    }
    k
}

fn comma_gap_exec(cs: &Vec<char>, i: usize) -> (r: Option<usize>)
    requires
        i < cs.len(),
    ensures
        match r {
            Some(j) => comma_gap(cs@, i as int) == Some(j as int) && i < j < cs.len(),
            None => comma_gap(cs@, i as int) is None,
        },
{
    let c = cs[i];
    let len = cs.len();
    if (c == '}' || c == ']' || c == '"') && len - i > 1 {
        let j0 = skip_blanks_exec(cs, i + 1);
        let j1 = if j0 < len && cs[j0] == ',' {
            j0 + 1
        } else {
            j0
        };
        let mut found = false;
        let mut j2 = j1;
        if j1 < len && cs[j1] == '\n' {
            found = true;
            j2 = j1 + 1;
        } else if j1 < len && cs[j1] == '\r' && len - j1 > 1 && cs[j1 + 1] == '\n' {
            found = true;
            j2 = j1 + 2;
        }
        if found {
            let j3 = skip_blanks_exec(cs, j2);
            if j3 < len && (cs[j3] == '{' || cs[j3] == '[' || cs[j3] == '"') {
                return Some(j3);
            }
        }
    }
    None
}

/// Inserts the comma that is missing between a closing `}`, `]` or `"` and a
/// value that starts the next line.
pub fn fix_missing_commas(text: &str) -> (out: String)
    ensures
        out@ == commas_inserted(text@, 0),
{
    let cs = chars_of(text);
    let mut out = String::new();
    let mut i: usize = 0;
    while i < cs.len()
        invariant
            cs@ == text@,
            i <= cs.len(),
            out@ + commas_inserted(cs@, i as int) == commas_inserted(cs@, 0),
        decreases cs.len() - i,
    {
        let ghost o = out@;
        let ghost oi = i;
        let c = cs[i];
        match comma_gap_exec(&cs, i) {
            Some(j) => {
                out.push(c);
                out.push(',');
                out.push('\n');
                i = j;
            },
            None => {
                out.push(c);
                i = i + 1;
            },
        }
        proof {
            assert(out@ + commas_inserted(cs@, i as int) =~= o + commas_inserted(cs@, oi as int));
        }
    }
    assert(out@ + commas_inserted(cs@, i as int) =~= out@);
    out
}


// ---------------------------------------------------------------------------
// The whole repair
// ---------------------------------------------------------------------------

/// The text without a leading "```json" or "```" fence and without a
/// trailing "```" fence.
pub open spec fn strip_fences(t: Seq<char>) -> Seq<char> {
    let r1 = if starts_with(t, fence_json()) {
        t.skip(7)
    } else if starts_with(t, fence()) {
        t.skip(3)
    } else {
        t
    };
    if ends_with(r1, fence()) {
        r1.take(r1.len() - 3)
    } else {
        r1
    }
}

/// Last index `< n` holding character `c`.
pub open spec fn rfind_char_before(s: Seq<char>, c: char, n: int) -> Option<int>
    decreases n,
{
    if n <= 0 || n > s.len() {
        None
    } else if s[n - 1] == c {
        Some(n - 1)
    } else {
        rfind_char_before(s, c, n - 1)
    }
}

/// Last index holding character `c` (`str::rfind`).
pub open spec fn rfind_char(s: Seq<char>, c: char) -> Option<int> {
    rfind_char_before(s, c, s.len() as int)
}

/// From the first `{` to the last `}` (or to the end when there is no `}`).
pub open spec fn object_span(t: Seq<char>) -> Seq<char> {
    match find_char_from(t, '{', 0) {
        Some(s) => match rfind_char(t, '}') {
            Some(e) => t.subrange(s, e + 1),
            None => t.skip(s),
        },
        None => t,
    }
}

/// Slicing from the first `{` to the last `}` panics when the last `}` stands
/// more than one character before the first `{`.
pub open spec fn object_span_ok(t: Seq<char>) -> bool {
    match (find_char_from(t, '{', 0), rfind_char(t, '}')) {
        (Some(s), Some(e)) => s <= e + 1,
        _ => true,
    }
}

/// `,}` and then `,]` removed.
pub open spec fn trailing_commas_removed(t: Seq<char>) -> Seq<char> {
    replace_all(replace_all(t, seq![',', '}'], seq!['}']), seq![',', ']'], seq![']'])
}

/// The text on which the Python-literal pass of `repair_json` runs.
pub open spec fn repair_core(t: Seq<char>) -> Seq<char> {
    trim(object_span(strip_fences(t)))
}

/// What `repair_json` returns.
pub open spec fn repaired(t: Seq<char>) -> Seq<char> {
    let r5 = python_literals_fixed(repair_core(t));
    let r6 = single_quotes(r5, 0, false, false, false);
    let r7 = commas_inserted(r6, 0);
    let r8 = newlines_escaped(r7, 0, false, false);
    brackets_closed(trailing_commas_removed(r8))
}

/// The inputs on which `repair_json` does not panic.
pub open spec fn repair_json_safe(t: Seq<char>) -> bool {
    object_span_ok(strip_fences(t))
}

proof fn lemma_rfind_char(s: Seq<char>, c: char, n: int)
    requires
        0 <= n <= s.len(),
    ensures
        match rfind_char_before(s, c, n) {
            Some(k) => 0 <= k < n && s[k] == c && forall|m: int| k < m < n ==> s[m] != c,
            None => forall|m: int| 0 <= m < n ==> s[m] != c,
        },
    decreases n,
{
    if n > 0 && s[n - 1] != c {
        lemma_rfind_char(s, c, n - 1);
    }
}

fn rfind_char_exec(cs: &Vec<char>, c: char) -> (r: Option<usize>)
    ensures
        match r {
            Some(k) => rfind_char(cs@, c) == Some(k as int) && k < cs.len(),
            None => rfind_char(cs@, c) is None,
        },
{
    let mut n = cs.len();
    while n > 0
        invariant
            n <= cs.len(),
            rfind_char(cs@, c) == rfind_char_before(cs@, c, n as int),
        decreases n,
    {
        if cs[n - 1] == c {
            return Some(n - 1);
        }
        n = n - 1;
    }
    None
}

/// Tests whether `repair_json` accepts `text` without panicking.
pub fn repair_json_is_safe(text: &str) -> (b: bool)
    ensures
        b == repair_json_safe(text@),
{
    let t = chars_of(text);
    let (lo, hi) = fence_bounds(&t);
    let r2 = slice_vec(&t, lo, hi);
    let span_ok = match (find_char(&r2, '{', 0), rfind_char_exec(&r2, '}')) {
        (Some(s), Some(e)) => s <= e + 1,
        _ => true,
    };
    span_ok
}

/// Bounds of `strip_fences(t)` within `t`.
fn fence_bounds(t: &Vec<char>) -> (r: (usize, usize))
    ensures
        r.0 <= r.1 <= t.len(),
        t@.subrange(r.0 as int, r.1 as int) == strip_fences(t@),
{
    let fj = fence_json_vec();
    let f = fence_vec();
    let mut lo: usize = 0;
    if matches_at(t, &fj, 0) {
        lo = 7;
        assert(t@.take(7) =~= t@.subrange(0, 7));
    } else if matches_at(t, &f, 0) {
        lo = 3;
        assert(t@.take(3) =~= t@.subrange(0, 3));
    } else {
        proof {
            if starts_with(t@, fence_json()) {
                assert(t@.take(7) =~= t@.subrange(0, 7));
            }
            if starts_with(t@, fence()) {
                assert(t@.take(3) =~= t@.subrange(0, 3));
            }
        }
    }
    let ghost r1 = t@.skip(lo as int);
    assert(r1 =~= t@.subrange(lo as int, t@.len() as int));
    let mut hi = t.len();
    if t.len() - lo >= 3 && matches_at(t, &f, t.len() - 3) {
        hi = t.len() - 3;
        assert(r1.skip(r1.len() - 3) =~= t@.subrange(t@.len() - 3, t@.len() as int));
        assert(r1.take(r1.len() - 3) =~= t@.subrange(lo as int, hi as int));
    } else {
        proof {
            if ends_with(r1, fence()) {
                assert(r1.skip(r1.len() - 3) =~= t@.subrange(t@.len() - 3, t@.len() as int));
            }
        }
    }
    (lo, hi)
}

/// `object_span` of `r`, when the span is well formed.
fn span_exec(r: &Vec<char>) -> (out: Vec<char>)
    requires
        object_span_ok(r@),
    ensures
        out@ == object_span(r@),
{
    match find_char(r, '{', 0) {
        Some(s) => {
            proof {
                lemma_find_from(r@, seq!['{'], 0);
            }
            match rfind_char_exec(r, '}') {
                Some(e) => slice_vec(r, s, e + 1),
                None => {
                    let v = slice_vec(r, s, r.len());
                    assert(v@ =~= r@.skip(s as int));
                    v
                },
            }
        },
        None => slice_vec_all(r),
    }
}

fn slice_vec_all(r: &Vec<char>) -> (out: Vec<char>)
    ensures
        out@ == r@,
{
    let v = slice_vec(r, 0, r.len());
    assert(v@ =~= r@);
    v
}

/// Repairs the almost-JSON text of a model reply: strips code fences, keeps
/// the span from the first `{` to the last `}`, trims, and then fixes Python
/// literals, single quotes, missing commas, raw newlines in strings,
/// trailing commas and unclosed strings and brackets, in that order.
pub fn repair_json(text: &str) -> (out: String)
    requires
        repair_json_safe(text@),
    ensures
        out@ == repaired(text@),
{
    let t = chars_of(text);
    let (lo, hi) = fence_bounds(&t);
    let r2 = slice_vec(&t, lo, hi);
    let r3 = span_exec(&r2);
    let (a, b) = trim_bounds(&r3, 0, r3.len());
    assert(r3@.subrange(0, r3@.len() as int) =~= r3@);
    let r4 = string_of_range(&r3, a, b);
    let r5 = fix_python_literals(r4.as_str());
    let r6 = fix_single_quoted_strings(r5.as_str());
    let r7 = fix_missing_commas(r6.as_str());
    let r8 = fix_unclosed_strings(r7.as_str());
    let c8 = chars_of(r8.as_str());
    let p1 = vec![',', '}'];
    let q1 = vec!['}'];
    let p2 = vec![',', ']'];
    let q2 = vec![']'];
    assert(p1@ =~= seq![',', '}']);
    assert(q1@ =~= seq!['}']);
    assert(p2@ =~= seq![',', ']']);
    assert(q2@ =~= seq![']']);
    let c9 = replace_vec(&c8, &p1, &q1);
    let c10 = replace_vec(&c9, &p2, &q2);
    let r10 = string_of(&c10);
    close_unclosed_brackets(r10.as_str())
}


// ---------------------------------------------------------------------------
// Parsing with serde_json
// ---------------------------------------------------------------------------

#[verifier::external_type_specification]
#[verifier::external_body]
pub struct ExJsonValue(serde_json::Value);

/// Whether `serde_json::from_str::<serde_json::Value>` accepts a text.
pub uninterp spec fn json_accepts(s: Seq<char>) -> bool;

/// The value that `serde_json::from_str::<serde_json::Value>` makes of a
/// text it accepts (a function of the text alone).
pub uninterp spec fn json_value_of(s: Seq<char>) -> serde_json::Value;

/// The `Display` text of the error that `serde_json::from_str::<serde_json::Value>`
/// gives for a text it rejects: the message with its line and column, a
/// function of the text alone.
pub uninterp spec fn json_error_of(s: Seq<char>) -> Seq<char>;

/// Calls `serde_json::from_str::<serde_json::Value>`; the result is `Ok`
/// exactly when the text is accepted, and then holds the value of the text;
/// otherwise it holds the error's `Display` text.
#[verifier::external_body]
pub(crate) fn parse_json_value(s: &str) -> (r: Result<serde_json::Value, String>)
    ensures
        r is Ok == json_accepts(s@),
        r matches Ok(v) ==> v == json_value_of(s@),
        r matches Err(m) ==> m@ == json_error_of(s@),
{
    serde_json::from_str::<serde_json::Value>(s).map_err(|e| e.to_string())
}

/// Whether one of the candidates of `validate_and_repair_json` parses: the
/// text, its JSON block, the repaired block, the repaired text.
pub open spec fn repair_parses(t: Seq<char>) -> bool {
    ||| json_accepts(t)
    ||| match json_block(t) {
        Some(b) => json_accepts(b) || json_accepts(repaired(b)),
        None => false,
    }
    ||| json_accepts(repaired(t))
}

/// The inputs on which `validate_and_repair_json` reaches no panicking repair.
pub open spec fn validate_safe(t: Seq<char>) -> bool {
    json_accepts(t) || match json_block(t) {
        Some(b) => json_accepts(b) || (repair_json_safe(b) && (json_accepts(repaired(b))
            || repair_json_safe(t))),
        None => repair_json_safe(t),
    }
}

/// The candidate whose value `validate_and_repair_json` returns: the text
/// when it parses, else its JSON block when that parses, else the repaired
/// block when that parses, else the repaired text when that parses.
pub open spec fn repair_choice(t: Seq<char>) -> Option<Seq<char>> {
    if json_accepts(t) {
        Some(t)
    } else {
        let from_block = match json_block(t) {
            Some(b) => if json_accepts(b) {
                Some(b)
            } else if json_accepts(repaired(b)) {
                Some(repaired(b))
            } else {
                None
            },
            None => None,
        };
        match from_block {
            Some(c) => Some(c),
            None => if json_accepts(repaired(t)) {
                Some(repaired(t))
            } else {
                None
            },
        }
    }
}

pub open spec fn parse_failure_prefix() -> Seq<char> {
    "JSON 解析失败（已尝试修复）: "@
}

/// Parses a model reply as JSON: the text itself, else its JSON block, else
/// the repaired block, else the repaired text. On failure the error message
/// is the failure prefix followed by the parser's message on the repaired text.
pub fn validate_and_repair_json(text: &str) -> (r: Result<serde_json::Value, String>)
    requires
        validate_safe(text@),
    ensures
        r is Ok <==> repair_parses(text@),
        match (r, repair_choice(text@)) {
            (Ok(v), Some(c)) => v == json_value_of(c),
            (Err(m), None) => m@ == parse_failure_prefix() + json_error_of(repaired(text@)),
            _ => false,
        },
{
    if let Ok(v) = parse_json_value(text) {
        return Ok(v);
    }
    if let Some(block) = extract_json_block(text) {
        if let Ok(v) = parse_json_value(block.as_str()) {
            return Ok(v);
        }
        let fixed = repair_json(block.as_str());
        if let Ok(v) = parse_json_value(fixed.as_str()) {
            return Ok(v);
        }
    }
    let fixed = repair_json(text);
    match parse_json_value(fixed.as_str()) {
        Ok(v) => Ok(v),
        Err(e) => {
            let mut m = String::from_str("JSON 解析失败（已尝试修复）: ");
            push_str(&mut m, e.as_str());
            proof {
                reveal_strlit("JSON 解析失败（已尝试修复）: ");
            }
            Err(m)
        },
    }
}

/// `validate_and_repair_json` where it does not panic; `None` on the inputs
/// on which one of its repairs would panic.
pub fn try_validate_and_repair_json(text: &str) -> (r: Option<Result<serde_json::Value, String>>)
    ensures
        r is Some <==> validate_safe(text@),
        r matches Some(res) ==> (res is Ok <==> repair_parses(text@)),
        r matches Some(res) ==> match (res, repair_choice(text@)) {
            (Ok(v), Some(c)) => v == json_value_of(c),
            (Err(m), None) => m@ == parse_failure_prefix() + json_error_of(repaired(text@)),
            _ => false,
        },
{
    if let Ok(v) = parse_json_value(text) {
        return Some(Ok(v));
    }
    let block = extract_json_block(text);
    let safe = match &block {
        Some(b) => {
            if let Ok(_) = parse_json_value(b.as_str()) {
                true
            } else if repair_json_is_safe(b.as_str()) {
                let fixed = repair_json(b.as_str());
                if let Ok(_) = parse_json_value(fixed.as_str()) {
                    true
                } else {
                    repair_json_is_safe(text)
                }
            } else {
                false
            }
        },
        None => repair_json_is_safe(text),
    };
    if safe {
        Some(validate_and_repair_json(text))
    } else {
        None
    }
}

} // verus!
