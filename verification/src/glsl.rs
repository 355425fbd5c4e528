//! Post-processing of the GLSL ES program that the native shader converter
//! emits: the body of `main` is cut out and rewritten into statements that a
//! stricter GLSL front end accepts.

use crate::text;
use crate::text::{
    char_or_len, chars_of, decimal_text, find_text, has_char, has_prefix, has_text, push_chars,
    push_text, replaced, rfind_text, split_lines, string_of, trimmed, trimmed_end, trimmed_start,
    without_leading_newlines,
};
use vstd::prelude::*;
use vstd::slice::slice_subrange;

verus! {

// ---------------------------------------------------------------------------
// Plain assignments
// ---------------------------------------------------------------------------
/// How many round and square brackets stand open before index `i` of `s`
/// (negative where more were closed than opened).
pub open spec fn nesting(s: Seq<char>, i: int) -> int
    decreases i,
{
    if i <= 0 {
        0
    } else if s[i - 1] == '(' || s[i - 1] == '[' {
        nesting(s, i - 1) + 1
    } else if s[i - 1] == ')' || s[i - 1] == ']' {
        nesting(s, i - 1) - 1
    } else {
        nesting(s, i - 1)
    }
}

/// A plain assignment sign stands at index `i` of `s`: an `=` outside all
/// brackets that is not part of `==`, `<=`, `>=` or `!=`.
pub open spec fn is_simple_assign(s: Seq<char>, i: int) -> bool {
    &&& 0 <= i < s.len()
    &&& s[i] == '='
    &&& nesting(s, i) == 0
    &&& (i + 1 < s.len() ==> s[i + 1] != '=')
    &&& (i > 0 ==> s[i - 1] != '=' && s[i - 1] != '<' && s[i - 1] != '>' && s[i - 1] != '!')
}

/// The first index from `i` on at which a plain assignment sign stands.
pub open spec fn simple_assign_from(s: Seq<char>, i: int) -> Option<int>
    decreases s.len() - i,
{
    if i >= s.len() {
        None
    } else if is_simple_assign(s, i) {
        Some(i)
    } else {
        simple_assign_from(s, i + 1)
    }
}

/// The first index at which a plain assignment sign stands.
pub open spec fn simple_assign(s: Seq<char>) -> Option<int> {
    simple_assign_from(s, 0)
}

/// [`simple_assign_from`] gives the least index not below `i` that qualifies.
pub proof fn lemma_simple_assign_from(s: Seq<char>, i: int)
    requires
        0 <= i,
    ensures
        match simple_assign_from(s, i) {
            Some(k) => i <= k && is_simple_assign(s, k) && forall|j: int|
                i <= j < k ==> !is_simple_assign(s, j),
            None => forall|j: int| i <= j ==> !is_simple_assign(s, j),
        },
    decreases s.len() - i,
{
    if i < s.len() && !is_simple_assign(s, i) {
        lemma_simple_assign_from(s, i + 1);
    }
}

/// The index, in characters, of the first plain assignment sign of `s`.
pub fn find_simple_assign(s: &[char]) -> (at: Option<usize>)
    ensures
        simple_assign(s@) == (match at {
            Some(i) => Some(i as int),
            None => None,
        }),
        at matches Some(i) ==> is_simple_assign(s@, i as int),
{
    let mut depth: i128 = 0;
    let mut i: usize = 0;
    while i < s.len()
        invariant
            i <= s.len(),
            -i <= depth <= i,
            depth == nesting(s@, i as int),
            simple_assign(s@) == simple_assign_from(s@, i as int),
        decreases s@.len() - i,
    {
        let c = s[i];
        if c == '(' || c == '[' {
            depth += 1;
        } else if c == ')' || c == ']' {
            depth -= 1;
        } else if c == '=' && depth == 0 {
            let prev: char = if i > 0 {
                s[i - 1]
            } else {
                ' '
            };
            let next: char = if i + 1 < s.len() {
                s[i + 1]
            } else {
                ' '
            };
            if next != '=' && prev != '=' && prev != '<' && prev != '>' && prev != '!' {
                return Some(i);
            }
        }
        i += 1;
    }
    None
}

// ---------------------------------------------------------------------------
// Swizzle stores
// ---------------------------------------------------------------------------
/// The parts of a statement `place.swizzle = value;` and its indentation.
pub struct SwizzleStore {
    pub indent: Seq<char>,
    pub place: Seq<char>,
    pub swizzle: Seq<char>,
    pub value: Seq<char>,
}

/// One of the four vector components.
pub open spec fn is_component(c: char) -> bool {
    c == 'x' || c == 'y' || c == 'z' || c == 'w'
}

/// Two to four vector components.
pub open spec fn is_swizzle(s: Seq<char>) -> bool {
    2 <= s.len() <= 4 && forall|i: int| 0 <= i < s.len() ==> is_component(#[trigger] s[i])
}

/// A character that no plain store destination holds.
pub open spec fn is_operator(c: char) -> bool {
    c == '+' || c == '-' || c == '*' || c == '/' || c == '?' || c == '(' || c == ' '
}

/// A plain store destination: not empty, and free of arithmetic and calls.
pub open spec fn is_simple_place(s: Seq<char>) -> bool {
    s.len() > 0 && forall|i: int| 0 <= i < s.len() ==> !is_operator(#[trigger] s[i])
}

/// The store to several components that `line` is, if it is one.
pub open spec fn swizzle_store(line: Seq<char>) -> Option<SwizzleStore> {
    let code = text::trim_start(line);
    if code.len() == 0 || code.last() != ';' {
        None
    } else {
        let stmt = code.drop_last();
        match simple_assign(stmt) {
            None => None,
            Some(eq) => {
                let lhs = text::trim(stmt.take(eq));
                match text::rfind(lhs, "."@) {
                    None => None,
                    Some(dot) => {
                        let swizzle = lhs.skip(dot + 1);
                        let place = text::trim(lhs.take(dot));
                        if is_swizzle(swizzle) && is_simple_place(place) {
                            Some(
                                SwizzleStore {
                                    indent: line.take(line.len() - code.len()),
                                    place,
                                    swizzle,
                                    value: text::trim(stmt.skip(eq + 1)),
                                },
                            )
                        } else {
                            None
                        }
                    },
                }
            },
        }
    }
}

/// The GLSL vector type of `n` components.
pub open spec fn vector_type(n: nat) -> Seq<char> {
    if n == 2 {
        "vec2"@
    } else if n == 3 {
        "vec3"@
    } else {
        "vec4"@
    }
}

/// The name of the `n`-th temporary.
pub open spec fn temporary(n: nat) -> Seq<char> {
    "_sws"@ + text::decimal(n)
}

/// The name of a vector's component number `k`.
pub open spec fn component(k: int) -> char {
    if k == 0 {
        'x'
    } else if k == 1 {
        'y'
    } else if k == 2 {
        'z'
    } else {
        'w'
    }
}

/// The stores of the first `k` components of temporary `tmp` to `place`.
pub open spec fn component_stores(
    place: Seq<char>,
    swizzle: Seq<char>,
    tmp: Seq<char>,
    k: nat,
) -> Seq<char>
    decreases k,
{
    if k == 0 {
        Seq::empty()
    } else {
        component_stores(place, swizzle, tmp, (k - 1) as nat) + " "@ + place + "."@
            + seq![swizzle[k - 1]] + " = "@ + tmp + "."@ + seq![component(k - 1)] + ";"@
    }
}

/// `store` written with temporary number `n`: the value is computed once, then
/// stored component by component.
pub open spec fn expanded_store(store: SwizzleStore, n: nat) -> Seq<char> {
    store.indent + vector_type(store.swizzle.len()) + " "@ + temporary(n) + " = "@ + store.value
        + ";"@ + component_stores(store.place, store.swizzle, temporary(n), store.swizzle.len())
}

fn all_components(s: &[char]) -> (yes: bool)
    ensures
        yes == (forall|i: int| 0 <= i < s@.len() ==> is_component(#[trigger] s@[i])),
{
    let mut i: usize = 0;
    while i < s.len()
        invariant
            i <= s@.len(),
            forall|j: int| 0 <= j < i ==> is_component(#[trigger] s@[j]),
        decreases s@.len() - i,
    {
        let c = s[i];
        if !(c == 'x' || c == 'y' || c == 'z' || c == 'w') {
            assert(!is_component(s@[i as int]));
            return false;
        }
        i += 1;
    }
    true
}

fn simple_place(s: &[char]) -> (yes: bool)
    ensures
        yes == is_simple_place(s@),
{
    let mut i: usize = 0;
    while i < s.len()
        invariant
            i <= s@.len(),
            forall|j: int| 0 <= j < i ==> !is_operator(#[trigger] s@[j]),
        decreases s@.len() - i,
    {
        let c = s[i];
        if c == '+' || c == '-' || c == '*' || c == '/' || c == '?' || c == '(' || c == ' ' {
            assert(is_operator(s@[i as int]));
            return false;
        }
        i += 1;
    }
    s.len() > 0
}

/// The component-wise form of `line`, written with the next temporary, where
/// `line` stores to several components at once.
pub fn try_expand_swizzle_store(line: &[char], counter: &mut usize) -> (out: Option<Vec<char>>)
    requires
        *old(counter) < usize::MAX,
    ensures
        match swizzle_store(line@) {
            Some(store) => out is Some && out->0@ == expanded_store(
                store,
                (*old(counter) + 1) as nat,
            ) && *final(counter) == *old(counter) + 1,
            None => out is None && *final(counter) == *old(counter),
        },
{
    let code = trimmed_start(line);
    let indent = slice_subrange(line, 0, line.len() - code.len());
    assert(indent@ =~= line@.take(line@.len() - code@.len()));
    if code.len() == 0 || code[code.len() - 1] != ';' {
        return None;
    }
    let stmt = slice_subrange(code, 0, code.len() - 1);
    assert(stmt@ =~= code@.drop_last());
    let eq: usize = match find_simple_assign(stmt) {
        None => {
            return None;
        },
        Some(eq) => eq,
    };
    let left = slice_subrange(stmt, 0, eq);
    assert(left@ =~= stmt@.take(eq as int));
    let right = slice_subrange(stmt, eq + 1, stmt.len());
    assert(right@ =~= stmt@.skip(eq + 1));
    let lhs = trimmed(left);
    let rhs = trimmed(right);
    let dot: usize = match rfind_text(lhs, ".") {
        None => {
            return None;
        },
        Some(dot) => dot,
    };
    proof {
        reveal_strlit(".");
    }
    assert(dot + 1 <= lhs.len());
    let swizzle = slice_subrange(lhs, dot + 1, lhs.len());
    assert(swizzle@ =~= lhs@.skip(dot + 1));
    if swizzle.len() < 2 || swizzle.len() > 4 || !all_components(swizzle) {
        return None;
    }
    let before = slice_subrange(lhs, 0, dot);
    assert(before@ =~= lhs@.take(dot as int));
    let place = trimmed(before);
    if !simple_place(place) {
        return None;
    }
    *counter += 1;
    let mut tmp: Vec<char> = Vec::new();
    push_text(&mut tmp, "_sws");
    push_text(&mut tmp, decimal_text(*counter as u128).as_str());
    assert(tmp@ =~= temporary(*counter as nat));

    let mut out: Vec<char> = Vec::new();
    push_chars(&mut out, indent);
    if swizzle.len() == 2 {
        push_text(&mut out, "vec2");
    } else if swizzle.len() == 3 {
        push_text(&mut out, "vec3");
    } else {
        push_text(&mut out, "vec4");
    }
    push_text(&mut out, " ");
    push_chars(&mut out, tmp.as_slice());
    push_text(&mut out, " = ");
    push_chars(&mut out, rhs);
    push_text(&mut out, ";");
    let ghost head = out@;
    assert(head =~= indent@ + vector_type(swizzle@.len()) + " "@ + tmp@ + " = "@ + rhs@ + ";"@);
    let mut k: usize = 0;
    assert(head + component_stores(place@, swizzle@, tmp@, 0) =~= head);
    while k < swizzle.len()
        invariant
            k <= swizzle@.len(),
            2 <= swizzle@.len() <= 4,
            out@ == head + component_stores(place@, swizzle@, tmp@, k as nat),
        decreases swizzle@.len() - k,
    {
        let ghost done = out@;
        push_text(&mut out, " ");
        push_chars(&mut out, place);
        push_text(&mut out, ".");
        out.push(swizzle[k]);
        push_text(&mut out, " = ");
        push_chars(&mut out, tmp.as_slice());
        push_text(&mut out, ".");
        if k == 0 {
            out.push('x');
        } else if k == 1 {
            out.push('y');
        } else if k == 2 {
            out.push('z');
        } else {
            out.push('w');
        }
        push_text(&mut out, ";");
        assert(out@ =~= head + (component_stores(place@, swizzle@, tmp@, k as nat) + " "@ + place@
            + "."@ + seq![swizzle@[k as int]] + " = "@ + tmp@ + "."@ + seq![component(k as int)]
            + ";"@));
        k += 1;
    }
    Some(out)
}

/// The lines `ls`, each followed by a line feed, with every store to several
/// components expanded; temporaries are numbered on from `n`.
pub open spec fn expanded_lines(ls: Seq<Seq<char>>, n: nat) -> Seq<char>
    decreases ls.len(),
{
    if ls.len() == 0 {
        Seq::empty()
    } else {
        match swizzle_store(ls[0]) {
            Some(store) => expanded_store(store, n + 1) + seq!['\n'] + expanded_lines(
                ls.skip(1),
                n + 1,
            ),
            None => ls[0] + seq!['\n'] + expanded_lines(ls.skip(1), n),
        }
    }
}

/// Expands every store to several components of `src`, line by line.
pub fn expand_swizzle_stores(src: &[char]) -> (out: Vec<char>)
    ensures
        out@ == expanded_lines(text::lines(src@), 0),
{
    let ls = split_lines(src);
    let ghost all = text::lines(src@);
    let mut out: Vec<char> = Vec::new();
    let mut counter: usize = 0;
    let mut i: usize = 0;
    assert(all.skip(0) =~= all);
    assert(out@ + expanded_lines(all.skip(0), 0) =~= expanded_lines(all, 0));
    while i < ls.len()
        invariant
            text::texts(ls@) == all,
            all == text::lines(src@),
            i <= ls.len(),
            counter <= i,
            out@ + expanded_lines(all.skip(i as int), counter as nat) == expanded_lines(all, 0),
        decreases ls@.len() - i,
    {
        let ghost rest = all.skip(i as int);
        let ghost done = out@;
        let ghost n = counter as nat;
        let line = ls[i].as_slice();
        assert(line@ == text::texts(ls@)[i as int]);
        assert(rest[0] == line@);
        match try_expand_swizzle_store(line, &mut counter) {
            Some(expanded) => {
                push_chars(&mut out, expanded.as_slice());
            },
            None => {
                push_chars(&mut out, line);
            },
        }
        out.push('\n');
        i += 1;
        assert(rest.skip(1) =~= all.skip(i as int));
        assert(out@ + expanded_lines(all.skip(i as int), counter as nat) =~= done + expanded_lines(
            rest,
            n,
        ));
    }
    assert(out@ + expanded_lines(all.skip(i as int), counter as nat) =~= out@);
    out
}

// ---------------------------------------------------------------------------
// The fragment output
// ---------------------------------------------------------------------------
/// `s` cut behind its last assignment to the fragment output, which is turned
/// into an assignment of the three colour components to `ret`: what comes up to
/// there with a line feed, and what follows the semicolon. None where there is no
/// such assignment.
pub open spec fn output_split(s: Seq<char>) -> Option<(Seq<char>, Seq<char>)> {
    let needle = "_glesFragData[0] = "@;
    match text::rfind(s, needle) {
        None => None,
        Some(pos) => {
            let rest = s.skip(pos + needle.len());
            let semi = text::index_or_len(rest, ';', 0);
            if semi >= rest.len() {
                None
            } else {
                Some(
                    (
                        s.take(pos) + "ret = "@ + text::trim(rest.take(semi)) + ".xyz;\n"@,
                        rest.skip(semi + 1),
                    ),
                )
            }
        },
    }
}

/// `s` with its last assignment to the fragment output turned into one to
/// `ret`; the line feeds that follow it shrink to one.
pub open spec fn with_ret_statement(s: Seq<char>) -> Seq<char> {
    match output_split(s) {
        None => s,
        Some((head, tail)) => head + text::trim_start_by(tail, |c: char| c == '\n'),
    }
}

/// A line feed and a closing brace stand at the start of `s`.
pub open spec fn closes(s: Seq<char>) -> bool {
    s.len() >= 2 && s[0] == '\n' && s[1] == '}'
}

/// `s` with its last assignment to the fragment output turned into one to
/// `ret`, together with the brace where one closes the program on the next line;
/// elsewhere the line feeds that follow shrink to one.
pub open spec fn with_ret(s: Seq<char>) -> Seq<char> {
    match output_split(s) {
        None => s,
        Some((head, tail)) => head + (if closes(tail) {
            tail.skip(2)
        } else {
            text::trim_start_by(tail, |c: char| c == '\n')
        }),
    }
}

/// Cuts `s` behind its last assignment to the fragment output, and turns that
/// into an assignment to `ret`.
fn split_output(s: &[char]) -> (out: Option<(Vec<char>, &[char])>)
    ensures
        match output_split(s@) {
            Some((head, tail)) => out matches Some((h, t)) && h@ == head && t@ == tail,
            None => out is None,
        },
{
    let needle_len = chars_of("_glesFragData[0] = ").len();
    if let Some(pos) = rfind_text(s, "_glesFragData[0] = ") {
        assert(pos + needle_len <= s.len());
        let rest = slice_subrange(s, pos + needle_len, s.len());
        assert(rest@ =~= s@.skip(pos + needle_len));
        let semi = char_or_len(rest, ';');
        if semi < rest.len() {
            let before = slice_subrange(s, 0, pos);
            let expr = slice_subrange(rest, 0, semi);
            let after = slice_subrange(rest, semi + 1, rest.len());
            assert(before@ =~= s@.take(pos as int));
            assert(expr@ =~= rest@.take(semi as int));
            assert(after@ =~= rest@.skip(semi + 1));
            let mut head: Vec<char> = Vec::new();
            push_chars(&mut head, before);
            push_text(&mut head, "ret = ");
            push_chars(&mut head, trimmed(expr));
            push_text(&mut head, ".xyz;\n");
            return Some((head, after));
        }
    }
    None
}

/// Turns the last `_glesFragData[0] = expr;` of `s` into `ret = expr.xyz;`.
fn rename_output(s: &[char]) -> (out: Vec<char>)
    ensures
        out@ == with_ret_statement(s@),
{
    match split_output(s) {
        Some((mut head, tail)) => {
            push_chars(&mut head, without_leading_newlines(tail));
            head
        },
        None => {
            let mut out: Vec<char> = Vec::new();
            push_chars(&mut out, s);
            out
        },
    }
}

/// Turns the last `_glesFragData[0] = expr;` of `s`, with the closing brace on
/// the next line, into `ret = expr.xyz;`.
pub fn transform_frag_output(s: &[char]) -> (out: Vec<char>)
    ensures
        out@ == with_ret(s@),
{
    match split_output(s) {
        Some((mut head, tail)) => {
            if tail.len() >= 2 && tail[0] == '\n' && tail[1] == '}' {
                let kept = slice_subrange(tail, 2, tail.len());
                assert(kept@ =~= tail@.skip(2));
                push_chars(&mut head, kept);
            } else {
                push_chars(&mut head, without_leading_newlines(tail));
            }
            head
        },
        None => {
            let mut out: Vec<char> = Vec::new();
            push_chars(&mut out, s);
            out
        },
    }
}

// ---------------------------------------------------------------------------
// The whole program
// ---------------------------------------------------------------------------
/// Where `void main` stands in `glsl`, or its end.
pub open spec fn main_start(glsl: Seq<char>) -> int {
    match text::find(glsl, "void main"@) {
        Some(i) => i,
        None => glsl.len() as int,
    }
}

/// `t` without one leading precision qualifier.
pub open spec fn without_precision(t: Seq<char>) -> Seq<char> {
    if text::starts_with(t, "lowp "@) {
        t.skip("lowp "@.len() as int)
    } else if text::starts_with(t, "mediump "@) {
        t.skip("mediump "@.len() as int)
    } else if text::starts_with(t, "highp "@) {
        t.skip("highp "@.len() as int)
    } else {
        t
    }
}

/// `t` declares a global variable that holds the writable copy of a read-only
/// one: it is no interface variable, no layout and no function.
pub open spec fn is_mutable_copy(t: Seq<char>) -> bool {
    &&& text::contains_text(t, "xlat_mutable"@)
    &&& t.len() > 0
    &&& t.last() == ';'
    &&& !t.contains('{')
    &&& !text::starts_with(t, "uniform"@)
    &&& !text::starts_with(t, "in "@)
    &&& !text::starts_with(t, "out "@)
    &&& !text::starts_with(t, "layout"@)
}

/// What a file-scope line contributes to the top of the body.
pub open spec fn hoisted_line(line: Seq<char>) -> Seq<char> {
    let t = without_precision(text::trim(line));
    if is_mutable_copy(t) {
        "    "@ + t + seq!['\n']
    } else {
        Seq::empty()
    }
}

/// What the file-scope lines contribute to the top of the body.
pub open spec fn hoisted(ls: Seq<Seq<char>>) -> Seq<char>
    decreases ls.len(),
{
    if ls.len() == 0 {
        Seq::empty()
    } else {
        hoisted_line(ls[0]) + hoisted(ls.skip(1))
    }
}

/// `body`, which begins at a brace or is empty, without its outermost braces
/// and the white space behind them.
pub open spec fn without_braces(body: Seq<char>) -> Seq<char> {
    let t = text::trim_end(body);
    if t.len() > 0 && t[0] == '{' && t.last() == '}' {
        t.subrange(1, t.len() - 1)
    } else {
        body
    }
}

/// The inside of the first braces of `after`.
pub open spec fn main_body(after: Seq<char>) -> Seq<char> {
    without_braces(after.skip(text::index_or_len(after, '{', 0)))
}

/// `line` without precision qualifiers, and with the texture coordinate under
/// its short name.
pub open spec fn clean_line(line: Seq<char>) -> Seq<char> {
    let a = text::replace(line, "lowp "@, ""@);
    let b = text::replace(a, "highp "@, ""@);
    let c = text::replace(b, "mediump "@, ""@);
    text::replace(c, "xlv_TEXCOORD0"@, "uv"@)
}

/// The cleaned lines, each followed by a line feed.
pub open spec fn clean_lines(ls: Seq<Seq<char>>) -> Seq<char>
    decreases ls.len(),
{
    if ls.len() == 0 {
        Seq::empty()
    } else {
        clean_line(ls[0]) + seq!['\n'] + clean_lines(ls.skip(1))
    }
}

/// The body of the function that `after` begins with, rewritten: the cleaned
/// statements with every store to several components expanded.
pub open spec fn rewritten(after: Seq<char>) -> Seq<char> {
    let body = with_ret_statement(main_body(after));
    expanded_lines(text::lines(clean_lines(text::lines(body))), 0)
}

/// The body of `main` of the program `glsl`, rewritten, behind the declarations
/// of writable copies.
pub open spec fn processed(glsl: Seq<char>) -> Seq<char> {
    let start = main_start(glsl);
    hoisted(text::lines(glsl.take(start))) + rewritten(glsl.skip(start))
}

/// `t` without one leading precision qualifier.
fn strip_precision(t: &[char]) -> (out: &[char])
    ensures
        out@ == without_precision(t@),
{
    let n: usize = if has_prefix(t, "lowp ") {
        chars_of("lowp ").len()
    } else if has_prefix(t, "mediump ") {
        chars_of("mediump ").len()
    } else if has_prefix(t, "highp ") {
        chars_of("highp ").len()
    } else {
        0
    };
    let out = slice_subrange(t, n, t.len());
    assert(out@ =~= t@.skip(n as int));
    assert(t@.skip(0) =~= t@);
    out
}

/// Whether `t` declares a writable copy.
fn declares_mutable_copy(t: &[char]) -> (yes: bool)
    ensures
        yes == is_mutable_copy(t@),
{
    has_text(t, "xlat_mutable") && t.len() > 0 && t[t.len() - 1] == ';' && !has_char(t, '{')
        && !has_prefix(t, "uniform") && !has_prefix(t, "in ") && !has_prefix(t, "out ")
        && !has_prefix(t, "layout")
}

/// The declarations of writable copies among the lines of `head`.
fn hoisted_declarations(head: &[char]) -> (out: Vec<char>)
    ensures
        out@ == hoisted(text::lines(head@)),
{
    let ls = split_lines(head);
    let ghost all = text::lines(head@);
    let mut out: Vec<char> = Vec::new();
    let mut i: usize = 0;
    assert(all.skip(0) =~= all);
    assert(out@ + hoisted(all.skip(0)) =~= hoisted(all));
    while i < ls.len()
        invariant
            text::texts(ls@) == all,
            i <= ls.len(),
            out@ + hoisted(all.skip(i as int)) == hoisted(all),
        decreases ls@.len() - i,
    {
        let ghost rest = all.skip(i as int);
        let ghost done = out@;
        let line = ls[i].as_slice();
        assert(line@ == text::texts(ls@)[i as int]);
        assert(rest[0] == line@);
        let t = strip_precision(trimmed(line));
        if declares_mutable_copy(t) {
            push_text(&mut out, "    ");
            push_chars(&mut out, t);
            out.push('\n');
            assert(out@ =~= done + hoisted_line(line@));
        }
        i += 1;
        assert(rest.skip(1) =~= all.skip(i as int));
        assert(out@ + hoisted(all.skip(i as int)) =~= done + hoisted(rest));
    }
    assert(out@ + hoisted(all.skip(i as int)) =~= out@);
    out
}

/// `body` without its outermost braces.
fn strip_braces(body: &[char]) -> (out: &[char])
    ensures
        out@ == without_braces(body@),
{
    let t = trimmed_end(body);
    if t.len() > 0 && t[0] == '{' && t[t.len() - 1] == '}' {
        slice_subrange(t, 1, t.len() - 1)
    } else {
        body
    }
}

/// One cleaned line.
fn cleaned_line(line: &[char]) -> (out: Vec<char>)
    ensures
        out@ == clean_line(line@),
{
    proof {
        reveal_strlit("lowp ");
        reveal_strlit("highp ");
        reveal_strlit("mediump ");
        reveal_strlit("xlv_TEXCOORD0");
    }
    let a = replaced(line, "lowp ", "");
    let b = replaced(a.as_slice(), "highp ", "");
    let c = replaced(b.as_slice(), "mediump ", "");
    replaced(c.as_slice(), "xlv_TEXCOORD0", "uv")
}

/// The cleaned lines of `body`.
fn cleaned_lines(body: &[char]) -> (out: Vec<char>)
    ensures
        out@ == clean_lines(text::lines(body@)),
{
    let ls = split_lines(body);
    let ghost all = text::lines(body@);
    let mut out: Vec<char> = Vec::new();
    let mut i: usize = 0;
    assert(all.skip(0) =~= all);
    assert(out@ + clean_lines(all.skip(0)) =~= clean_lines(all));
    while i < ls.len()
        invariant
            text::texts(ls@) == all,
            i <= ls.len(),
            out@ + clean_lines(all.skip(i as int)) == clean_lines(all),
        decreases ls@.len() - i,
    {
        let ghost rest = all.skip(i as int);
        let ghost done = out@;
        let line = ls[i].as_slice();
        assert(line@ == text::texts(ls@)[i as int]);
        assert(rest[0] == line@);
        let cleaned = cleaned_line(line);
        push_chars(&mut out, cleaned.as_slice());
        out.push('\n');
        i += 1;
        assert(rest.skip(1) =~= all.skip(i as int));
        assert(out@ + clean_lines(all.skip(i as int)) =~= done + clean_lines(rest));
    }
    assert(out@ + clean_lines(all.skip(i as int)) =~= out@);
    out
}

/// Cuts the body of `main` out of the converter's GLSL ES program and rewrites
/// it: precision qualifiers go, `xlv_TEXCOORD0` becomes `uv`, the fragment
/// output becomes `ret`, stores to several components are expanded, and the
/// declarations of writable copies of globals are put in front.
pub fn process_native_glsl(glsl: &str) -> (out: String)
    ensures
        out@ == processed(glsl@),
{
    let program = chars_of(glsl);
    let all = program.as_slice();
    let start: usize = match find_text(all, "void main") {
        Some(i) => i,
        None => all.len(),
    };
    let head = slice_subrange(all, 0, start);
    assert(head@ =~= glsl@.take(start as int));
    let mut out = hoisted_declarations(head);

    let after = slice_subrange(all, start, all.len());
    assert(after@ =~= glsl@.skip(start as int));
    let open = char_or_len(after, '{');
    let braced = slice_subrange(after, open, after.len());
    assert(braced@ =~= after@.skip(open as int));
    let body = rename_output(strip_braces(braced));
    let cleaned = cleaned_lines(body.as_slice());
    let expanded = expand_swizzle_stores(cleaned.as_slice());
    push_chars(&mut out, expanded.as_slice());
    string_of(out.as_slice())
}

// ---------------------------------------------------------------------------
// Laws
// ---------------------------------------------------------------------------
/// The lines `ls`, each followed by a line feed.
pub open spec fn joined_lines(ls: Seq<Seq<char>>) -> Seq<char>
    decreases ls.len(),
{
    if ls.len() == 0 {
        Seq::empty()
    } else {
        ls[0] + seq!['\n'] + joined_lines(ls.skip(1))
    }
}

/// Lines that store to no more than one component each come through the
/// expansion unchanged.
pub proof fn law_other_lines_are_kept(ls: Seq<Seq<char>>, n: nat)
    requires
        forall|i: int| 0 <= i < ls.len() ==> swizzle_store(#[trigger] ls[i]) is None,
    ensures
        expanded_lines(ls, n) == joined_lines(ls),
    decreases ls.len(),
{
    if ls.len() > 0 {
        assert forall|i: int| 0 <= i < ls.skip(1).len() implies swizzle_store(
            #[trigger] ls.skip(1)[i],
        ) is None by {
            assert(ls.skip(1)[i] == ls[i + 1]);
        }
        law_other_lines_are_kept(ls.skip(1), n);
        assert(swizzle_store(ls[0]) is None);
    }
}

/// A program without `void main` has no body: only its declarations of
/// writable copies are left.
pub proof fn law_program_without_main(glsl: Seq<char>)
    requires
        text::find(glsl, "void main"@) is None,
    ensures
        processed(glsl) == hoisted(text::lines(glsl)),
{
    assert(glsl.take(glsl.len() as int) =~= glsl);
    assert(glsl.skip(glsl.len() as int) =~= Seq::<char>::empty());
    let none = Seq::<char>::empty();
    assert(none.skip(0) =~= none);
    assert(main_body(none) =~= none);
    text::lemma_rfind_below(none, "_glesFragData[0] = "@, 1);
    reveal_strlit("_glesFragData[0] = ");
    assert(with_ret_statement(none) =~= none);
    assert(clean_lines(text::lines(none)) =~= none);
    assert(expanded_lines(text::lines(none), 0) =~= none);
    assert(processed(glsl) =~= hoisted(text::lines(glsl)));
}

/// Where a brace closes the program on the line behind the assignment to the
/// fragment output, it is part of what is replaced, and it alone; elsewhere only
/// the assignment is.
pub proof fn law_closing_brace_is_replaced(s: Seq<char>)
    requires
        output_split(s) is Some,
    ensures
        ({
            let (head, tail) = output_split(s)->0;
            if closes(tail) {
                with_ret_statement(s) == head + seq!['}'] + tail.skip(2) && with_ret(s) == head
                    + tail.skip(2)
            } else {
                with_ret(s) == with_ret_statement(s)
            }
        }),
{
    let (head, tail) = output_split(s)->0;
    if closes(tail) {
        let p = |c: char| c == '\n';
        let t1 = tail.skip(1);
        assert(t1[0] == '}');
        assert(text::trim_start_by(t1, p) == t1);
        assert(text::trim_start_by(tail, p) == text::trim_start_by(t1, p));
        assert(t1 =~= seq!['}'] + tail.skip(2));
        assert(head + t1 =~= head + seq!['}'] + tail.skip(2));
    }
}

/// No bracket stands open where none was written.
proof fn lemma_no_nesting(s: Seq<char>, i: int)
    requires
        0 <= i <= s.len(),
        forall|j: int|
            0 <= j < i ==> (#[trigger] s[j]) != '(' && s[j] != '[' && s[j] != ')' && s[j] != ']',
    ensures
        nesting(s, i) == 0,
    decreases i,
{
    if i > 0 {
        lemma_no_nesting(s, i - 1);
    }
}

/// The expanded form of a store is itself no store to several components: its
/// first assignment declares the temporary.
pub proof fn law_expanded_store_is_no_store(line: Seq<char>, n: nat)
    requires
        swizzle_store(line) is Some,
    ensures
        swizzle_store(expanded_store(swizzle_store(line)->0, n)) is None,
{
    reveal_strlit("vec2");
    reveal_strlit("vec3");
    reveal_strlit("vec4");
    reveal_strlit("_sws");
    reveal_strlit(" ");
    reveal_strlit(" = ");
    reveal_strlit(".");
    reveal_strlit(";");
    let p = |c: char| text::is_white_space(c);
    let store = swizzle_store(line)->0;
    let e = expanded_store(store, n);
    text::lemma_trim_start_by(line, p);
    text::lemma_decimal_digits(n);
    let tmp = temporary(n);
    let stores = component_stores(store.place, store.swizzle, tmp, store.swizzle.len());
    let head = vector_type(store.swizzle.len()) + " "@ + tmp + " "@;
    let code = head + "= "@ + store.value + ";"@ + stores;
    reveal_strlit("= ");
    assert(e =~= store.indent + code);
    text::lemma_trim_start_by_concat(store.indent, code, p);
    assert(text::trim_start(e) == code);
    assert(code.last() == ';') by {
        assert(stores.len() > 0);
        assert(stores.last() == ';');
    }
    let stmt = code.drop_last();
    let q = head.len() as int;
    assert forall|j: int| 0 <= j < q implies (#[trigger] stmt[j]) == head[j] && stmt[j] != '='
        && stmt[j] != '.' && stmt[j] != '(' && stmt[j] != '[' && stmt[j] != ')' && stmt[j]
        != ']' by {
        if 5 <= j < 9 {
        } else if 9 <= j < 5 + tmp.len() {
            assert(head[j] == text::decimal(n)[j - 9]);
        }
    }
    assert(stmt[q] == '=' && stmt[q + 1] == ' ' && stmt[q - 1] == ' ');
    lemma_no_nesting(stmt, q);
    assert(is_simple_assign(stmt, q));
    lemma_simple_assign_from(stmt, 0);
    assert(simple_assign(stmt) == Some(q)) by {
        let k = simple_assign(stmt)->0;
        if k < q {
            assert(stmt[k] == '=');
        }
    }
    let left = stmt.take(q);
    let lhs = text::trim(left);
    text::lemma_trim_subset(left);
    text::lemma_rfind_below(lhs, "."@, lhs.len() + 1);
    assert(text::rfind(lhs, "."@) is None) by {
        if text::rfind(lhs, "."@) is Some {
            let d = text::rfind(lhs, "."@)->0;
            assert(lhs.subrange(d, d + 1)[0] == '.');
            assert(left.contains(lhs[d]));
            let j = choose|j: int| 0 <= j < left.len() && left[j] == lhs[d];
            assert(stmt[j] == '.');
        }
    }
}

/// The part of a replaced text before the first character that only the
/// replacement holds is the same part of the text itself.
proof fn lemma_replace_prefix(t: Seq<char>, from: Seq<char>, to: Seq<char>, k: int)
    requires
        from.len() > 0,
        to.len() > 0,
        0 <= k <= text::replace(t, from, to).len(),
        forall|i: int| 0 <= i < k ==> #[trigger] text::replace(t, from, to)[i] != to[0],
    ensures
        k <= t.len(),
        forall|i: int| 0 <= i < k ==> #[trigger] t[i] == text::replace(t, from, to)[i],
    decreases t.len(),
{
    let r = text::replace(t, from, to);
    if k > 0 && t.len() > 0 {
        if text::starts_with(t, from) {
            assert(r[0] == to[0]);
        } else {
            let rest = text::replace(t.skip(1), from, to);
            assert(r =~= seq![t[0]] + rest);
            assert forall|i: int| 0 <= i < k - 1 implies #[trigger] rest[i] != to[0] by {
                assert(rest[i] == r[i + 1]);
            }
            lemma_replace_prefix(t.skip(1), from, to, k - 1);
            assert forall|i: int| 0 <= i < k implies #[trigger] t[i] == r[i] by {
                if i > 0 {
                    assert(t[i] == t.skip(1)[i - 1]);
                    assert(r[i] == rest[i - 1]);
                }
            }
        }
    }
}

/// Where no character of the replacement begins the replaced text, and its first
/// character does not occur in it, nothing to replace is left.
proof fn lemma_replace_leaves_none(s: Seq<char>, from: Seq<char>, to: Seq<char>, at: int)
    requires
        from.len() > 0,
        to.len() > 0,
        !from.contains(to[0]),
        forall|i: int| 0 <= i < to.len() ==> #[trigger] to[i] != from[0],
    ensures
        !text::occurs_at(text::replace(s, from, to), from, at),
    decreases s.len(),
{
    let r = text::replace(s, from, to);
    if text::occurs_at(r, from, at) {
        let hit = r.subrange(at, at + from.len());
        assert forall|i: int| 0 <= i < from.len() implies #[trigger] r[at + i] == from[i] by {
            assert(hit[i] == r[at + i]);
        }
        if s.len() == 0 {
        } else if text::starts_with(s, from) {
            let rest = text::replace(s.skip(from.len() as int), from, to);
            assert(r == to + rest);
            if at < to.len() {
                assert(r[at + 0] == from[0]);
                assert(r[at] == to[at]);
            } else {
                lemma_replace_leaves_none(s.skip(from.len() as int), from, to, at - to.len());
                assert(rest.subrange(at - to.len(), at - to.len() + from.len()) =~= hit);
            }
        } else {
            let rest = text::replace(s.skip(1), from, to);
            assert(r == seq![s[0]] + rest);
            if at > 0 {
                lemma_replace_leaves_none(s.skip(1), from, to, at - 1);
                assert(rest.subrange(at - 1, at - 1 + from.len()) =~= hit);
            } else {
                assert forall|i: int| 0 <= i < from.len() implies #[trigger] r[i] != to[0] by {
                    assert(r[at + i] == from[i]);
                }
                lemma_replace_prefix(s, from, to, from.len() as int);
                assert(s.subrange(0, from.len() as int) =~= from) by {
                    assert forall|i: int| 0 <= i < from.len() implies s[i] == from[i] by {
                        assert(r[at + i] == from[i]);
                        assert(s[i] == r[i]);
                    }
                }
            }
        }
    }
}

/// The texture coordinate is renamed wherever it stands: no cleaned line holds
/// its long name any more.
pub proof fn law_texture_coordinate_is_renamed_everywhere(line: Seq<char>)
    ensures
        !text::contains_text(clean_line(line), "xlv_TEXCOORD0"@),
{
    reveal_strlit("xlv_TEXCOORD0");
    reveal_strlit("uv");
    let a = text::replace(line, "lowp "@, ""@);
    let b = text::replace(a, "highp "@, ""@);
    let c = text::replace(b, "mediump "@, ""@);
    assert forall|at: int| !text::occurs_at(clean_line(line), "xlv_TEXCOORD0"@, at) by {
        lemma_replace_leaves_none(c, "xlv_TEXCOORD0"@, "uv"@, at);
    }
}

/// A line that holds neither a precision qualifier nor the texture coordinate's
/// long name is left as it is.
pub proof fn law_plain_lines_stay(line: Seq<char>)
    requires
        !text::contains_text(line, "lowp "@),
        !text::contains_text(line, "highp "@),
        !text::contains_text(line, "mediump "@),
        !text::contains_text(line, "xlv_TEXCOORD0"@),
    ensures
        clean_line(line) == line,
{
    lemma_replace_of_none(line, "lowp "@, ""@);
    lemma_replace_of_none(line, "highp "@, ""@);
    lemma_replace_of_none(line, "mediump "@, ""@);
    lemma_replace_of_none(line, "xlv_TEXCOORD0"@, "uv"@);
}

/// Where there is nothing to replace, nothing is replaced.
pub proof fn lemma_replace_of_none(s: Seq<char>, from: Seq<char>, to: Seq<char>)
    requires
        !text::contains_text(s, from),
    ensures
        text::replace(s, from, to) == s,
{
    if from.len() == 0 {
        assert(s.subrange(0, 0) =~= from);
        assert(text::occurs_at(s, from, 0));
    } else {
        text::lemma_nothing_to_replace(s, from, to);
    }
}

} // verus!
