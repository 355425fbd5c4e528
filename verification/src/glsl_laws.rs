//! What holds of the rewriting of a shader as a whole: which lines are stores to
//! several components and what becomes of them, that expanding the stores once is
//! enough, where the body and the fragment output are found, that the text before
//! `main` is discarded but for the declarations of writable copies, and that the
//! texture coordinate's long name does not come through.

use crate::glsl;
use crate::text;
use vstd::prelude::*;

verus! {

// ---------------------------------------------------------------------------
// Parts of texts
// ---------------------------------------------------------------------------
/// A part of a part is a part.
proof fn lemma_part_of_part(s: Seq<char>, p: Seq<char>, q: Seq<char>)
    requires
        text::contains_text(s, p),
        text::contains_text(p, q),
    ensures
        text::contains_text(s, q),
{
    let i = choose|i: int| text::occurs_at(s, p, i);
    let j = choose|j: int| text::occurs_at(p, q, j);
    assert(s.subrange(i + j, i + j + q.len()) =~= s.subrange(i, i + p.len()).subrange(
        j,
        j + q.len(),
    ));
    assert(text::occurs_at(s, q, i + j));
}

/// What lies between two indices is a part.
proof fn lemma_range_is_part(s: Seq<char>, a: int, b: int)
    requires
        0 <= a <= b <= s.len(),
    ensures
        text::contains_text(s, s.subrange(a, b)),
{
    assert(text::occurs_at(s, s.subrange(a, b), a));
}

/// A trimmed text is a part.
proof fn lemma_trim_is_part(s: Seq<char>)
    ensures
        text::contains_text(s, text::trim(s)),
{
    text::lemma_trim_start_by(s, |c: char| text::is_white_space(c));
    let t = text::trim_start(s);
    text::lemma_trim_end(t);
    let a = s.len() - t.len();
    let b = a + text::trim(s).len();
    assert(text::trim(s) =~= s.subrange(a, b));
    lemma_range_is_part(s, a, b);
}

/// A part has no character that the whole lacks.
proof fn lemma_part_lacks(s: Seq<char>, p: Seq<char>, c: char)
    requires
        text::contains_text(s, p),
        !s.contains(c),
    ensures
        !p.contains(c),
{
    let i = choose|i: int| text::occurs_at(s, p, i);
    assert forall|k: int| 0 <= k < p.len() implies p[k] != c by {
        assert(p[k] == s.subrange(i, i + p.len())[k]);
        assert(s[i + k] == p[k]);
    }
}

/// The parts of a store to several components are parts of its line, and the
/// indentation is white space.
proof fn lemma_store_parts(line: Seq<char>)
    requires
        glsl::swizzle_store(line) is Some,
    ensures
        ({
            let store = glsl::swizzle_store(line)->0;
            &&& text::contains_text(line, store.indent)
            &&& text::contains_text(line, store.place)
            &&& text::contains_text(line, store.value)
            &&& glsl::is_swizzle(store.swizzle)
            &&& forall|i: int|
                0 <= i < store.indent.len() ==> text::is_white_space(#[trigger] store.indent[i])
        }),
{
    let store = glsl::swizzle_store(line)->0;
    let p = |c: char| text::is_white_space(c);
    text::lemma_trim_start_by(line, p);
    let code = text::trim_start(line);
    let k = line.len() - code.len();
    assert(line.take(k) =~= line.subrange(0, k));
    lemma_range_is_part(line, 0, k);
    assert forall|i: int| 0 <= i < store.indent.len() implies text::is_white_space(
        #[trigger] store.indent[i],
    ) by {
        assert(p(line[i]));
    }
    assert(code =~= line.subrange(k, line.len() as int));
    lemma_range_is_part(line, k, line.len() as int);
    let stmt = code.drop_last();
    assert(stmt =~= code.subrange(0, code.len() - 1));
    lemma_range_is_part(code, 0, code.len() - 1);
    lemma_part_of_part(line, code, stmt);
    glsl::lemma_simple_assign_from(stmt, 0);
    let eq = glsl::simple_assign(stmt)->0;
    assert(stmt.skip(eq + 1) =~= stmt.subrange(eq + 1, stmt.len() as int));
    lemma_range_is_part(stmt, eq + 1, stmt.len() as int);
    lemma_part_of_part(line, stmt, stmt.skip(eq + 1));
    lemma_trim_is_part(stmt.skip(eq + 1));
    lemma_part_of_part(line, stmt.skip(eq + 1), store.value);
    assert(stmt.take(eq) =~= stmt.subrange(0, eq));
    lemma_range_is_part(stmt, 0, eq);
    lemma_part_of_part(line, stmt, stmt.take(eq));
    let lhs = text::trim(stmt.take(eq));
    lemma_trim_is_part(stmt.take(eq));
    lemma_part_of_part(line, stmt.take(eq), lhs);
    text::lemma_rfind_below(lhs, "."@, lhs.len() + 1);
    let dot = text::rfind(lhs, "."@)->0;
    assert(lhs.take(dot) =~= lhs.subrange(0, dot));
    lemma_range_is_part(lhs, 0, dot);
    lemma_part_of_part(line, lhs, lhs.take(dot));
    lemma_trim_is_part(lhs.take(dot));
    lemma_part_of_part(line, lhs.take(dot), store.place);
}

// ---------------------------------------------------------------------------
// Lines
// ---------------------------------------------------------------------------
/// Every line of a text is a part of it and holds no line feed.
proof fn lemma_lines_are_parts(s: Seq<char>)
    ensures
        forall|i: int|
            0 <= i < text::lines(s).len() ==> text::contains_text(s, #[trigger] text::lines(s)[i])
                && !text::lines(s)[i].contains('\n'),
    decreases s.len(),
{
    if s.len() > 0 {
        let n = text::index_or_len(s, '\n', 0);
        text::lemma_index_or_len(s, '\n', 0);
        if n >= s.len() {
            assert(s.subrange(0, s.len() as int) =~= s);
            assert(text::occurs_at(s, s, 0));
        } else {
            let first = text::without_carriage_return(s.take(n));
            let rest = s.skip(n + 1);
            assert(first =~= s.subrange(0, first.len() as int));
            lemma_range_is_part(s, 0, first.len() as int);
            lemma_lines_are_parts(rest);
            assert(rest =~= s.subrange(n + 1, s.len() as int));
            lemma_range_is_part(s, n + 1, s.len() as int);
            assert forall|i: int| 0 <= i < text::lines(s).len() implies text::contains_text(
                s,
                #[trigger] text::lines(s)[i],
            ) && !text::lines(s)[i].contains('\n') by {
                if i > 0 {
                    assert(text::lines(s)[i] == text::lines(rest)[i - 1]);
                    lemma_part_of_part(s, rest, text::lines(rest)[i - 1]);
                }
            }
        }
    }
}

/// A line that reads back as it is: it holds no line feed and does not end with
/// a carriage return.
pub open spec fn is_plain_line(s: Seq<char>) -> bool {
    !s.contains('\n') && (s.len() > 0 ==> s.last() != '\r')
}

/// Lines that are joined read back as they were.
proof fn lemma_lines_of_joined(ls: Seq<Seq<char>>)
    requires
        forall|i: int| 0 <= i < ls.len() ==> is_plain_line(#[trigger] ls[i]),
    ensures
        text::lines(glsl::joined_lines(ls)) == ls,
    decreases ls.len(),
{
    if ls.len() == 0 {
        assert(text::lines(glsl::joined_lines(ls)) =~= ls);
    } else {
        let rest = ls.skip(1);
        assert forall|i: int| 0 <= i < rest.len() implies is_plain_line(#[trigger] rest[i]) by {
            assert(rest[i] == ls[i + 1]);
        }
        lemma_lines_of_joined(rest);
        let s = glsl::joined_lines(ls);
        let k = ls[0].len() as int;
        assert(is_plain_line(ls[0]));
        text::lemma_index_or_len(s, '\n', 0);
        let n = text::index_or_len(s, '\n', 0);
        assert(s[k] == '\n');
        assert(n == k) by {
            if n < k {
                assert(s[n] == ls[0][n]);
                assert(ls[0].contains('\n'));
            }
        }
        assert(s.take(n) =~= ls[0]);
        assert(s.skip(n + 1) =~= glsl::joined_lines(rest));
        assert(text::lines(s) =~= ls);
    }
}

// ---------------------------------------------------------------------------
// Expanding twice
// ---------------------------------------------------------------------------
/// The lines `ls` with every store to several components expanded; temporaries
/// are numbered on from `n`.
pub open spec fn expanded_list(ls: Seq<Seq<char>>, n: nat) -> Seq<Seq<char>>
    decreases ls.len(),
{
    if ls.len() == 0 {
        Seq::empty()
    } else {
        match glsl::swizzle_store(ls[0]) {
            Some(store) => seq![glsl::expanded_store(store, n + 1)] + expanded_list(
                ls.skip(1),
                n + 1,
            ),
            None => seq![ls[0]] + expanded_list(ls.skip(1), n),
        }
    }
}

/// The expanded text is made of the expanded lines.
proof fn lemma_expanded_list(ls: Seq<Seq<char>>, n: nat)
    ensures
        glsl::expanded_lines(ls, n) == glsl::joined_lines(expanded_list(ls, n)),
        expanded_list(ls, n).len() == ls.len(),
    decreases ls.len(),
{
    if ls.len() > 0 {
        let m = if glsl::swizzle_store(ls[0]) is Some {
            n + 1
        } else {
            n
        };
        lemma_expanded_list(ls.skip(1), m);
        assert(expanded_list(ls, n).skip(1) =~= expanded_list(ls.skip(1), m));
    }
}

/// The stores of the components hold no line feed where the place and the
/// temporary hold none, and end with a semicolon.
proof fn lemma_stores_lack_line_feed(
    place: Seq<char>,
    swizzle: Seq<char>,
    tmp: Seq<char>,
    k: nat,
)
    requires
        !place.contains('\n'),
        !tmp.contains('\n'),
        k <= swizzle.len(),
        forall|i: int| 0 <= i < swizzle.len() ==> glsl::is_component(#[trigger] swizzle[i]),
    ensures
        !glsl::component_stores(place, swizzle, tmp, k).contains('\n'),
        k > 0 ==> glsl::component_stores(place, swizzle, tmp, k).last() == ';',
        k > 0 ==> glsl::component_stores(place, swizzle, tmp, k).len() > 0,
    decreases k,
{
    if k > 0 {
        reveal_strlit(" ");
        reveal_strlit(".");
        reveal_strlit(" = ");
        reveal_strlit(";");
        lemma_stores_lack_line_feed(place, swizzle, tmp, (k - 1) as nat);
        assert(glsl::is_component(swizzle[k - 1]));
    }
}

/// The expanded form of a store on a plain line is a plain line that is no store.
proof fn lemma_expanded_is_plain(line: Seq<char>, n: nat)
    requires
        !line.contains('\n'),
        glsl::swizzle_store(line) is Some,
    ensures
        ({
            let e = glsl::expanded_store(glsl::swizzle_store(line)->0, n);
            is_plain_line(e) && glsl::swizzle_store(e) is None
        }),
{
    reveal_strlit("vec2");
    reveal_strlit("vec3");
    reveal_strlit("vec4");
    reveal_strlit("_sws");
    reveal_strlit(" ");
    reveal_strlit(" = ");
    reveal_strlit(";");
    let store = glsl::swizzle_store(line)->0;
    lemma_store_parts(line);
    lemma_part_lacks(line, store.indent, '\n');
    lemma_part_lacks(line, store.place, '\n');
    lemma_part_lacks(line, store.value, '\n');
    text::lemma_decimal_digits(n);
    let tmp = glsl::temporary(n);
    assert(!tmp.contains('\n')) by {
        assert forall|i: int| 0 <= i < tmp.len() implies tmp[i] != '\n' by {
            if i >= 4 {
                assert(tmp[i] == text::decimal(n)[i - 4]);
            }
        }
    }
    lemma_stores_lack_line_feed(store.place, store.swizzle, tmp, store.swizzle.len());
    glsl::law_expanded_store_is_no_store(line, n);
}

/// Expanded lines are plain and hold no store to several components.
proof fn lemma_expanded_list_is_plain(ls: Seq<Seq<char>>, n: nat)
    requires
        forall|i: int| 0 <= i < ls.len() ==> is_plain_line(#[trigger] ls[i]),
    ensures
        forall|i: int|
            0 <= i < expanded_list(ls, n).len() ==> is_plain_line(#[trigger] expanded_list(ls, n)[i])
                && glsl::swizzle_store(expanded_list(ls, n)[i]) is None,
    decreases ls.len(),
{
    if ls.len() > 0 {
        let m = if glsl::swizzle_store(ls[0]) is Some {
            n + 1
        } else {
            n
        };
        let rest = ls.skip(1);
        assert forall|i: int| 0 <= i < rest.len() implies is_plain_line(#[trigger] rest[i]) by {
            assert(rest[i] == ls[i + 1]);
        }
        lemma_expanded_list_is_plain(rest, m);
        assert(is_plain_line(ls[0]));
        if glsl::swizzle_store(ls[0]) is Some {
            lemma_expanded_is_plain(ls[0], n + 1);
        }
        let out = expanded_list(ls, n);
        assert forall|i: int| 0 <= i < out.len() implies is_plain_line(#[trigger] out[i])
            && glsl::swizzle_store(out[i]) is None by {
            if i > 0 {
                assert(out[i] == expanded_list(rest, m)[i - 1]);
            }
        }
    }
}

/// Expanding a second time changes nothing, in a text none of whose lines ends
/// with a carriage return of its own.
pub proof fn law_expanding_twice_is_expanding_once(src: Seq<char>)
    requires
        forall|i: int|
            0 <= i < text::lines(src).len() ==> ((#[trigger] text::lines(src)[i]).len() > 0
                ==> text::lines(src)[i].last() != '\r'),
    ensures
        ({
            let once = glsl::expanded_lines(text::lines(src), 0);
            glsl::expanded_lines(text::lines(once), 0) == once
        }),
{
    let ls = text::lines(src);
    lemma_lines_are_parts(src);
    assert forall|i: int| 0 <= i < ls.len() implies is_plain_line(#[trigger] ls[i]) by {}
    let list = expanded_list(ls, 0);
    lemma_expanded_list(ls, 0);
    lemma_expanded_list_is_plain(ls, 0);
    lemma_lines_of_joined(list);
    glsl::law_other_lines_are_kept(list, 0);
}

// ---------------------------------------------------------------------------
// The texture coordinate's long name
// ---------------------------------------------------------------------------
/// `s` does not hold the texture coordinate's long name.
pub open spec fn lacks_long_name(s: Seq<char>) -> bool {
    !text::contains_text(s, "xlv_TEXCOORD0"@)
}

/// A character that does not occur in the long name.
spec fn is_apart(c: char) -> bool {
    c == ' ' || c == '\n' || c == '.' || c == ';' || c == '='
}

/// Two texts without the long name, with a character between them that is not
/// part of it, make one without it.
proof fn lemma_joined_lacks(a: Seq<char>, c: char, b: Seq<char>)
    requires
        lacks_long_name(a),
        lacks_long_name(b),
        is_apart(c),
    ensures
        lacks_long_name(a + seq![c] + b),
{
    reveal_strlit("xlv_TEXCOORD0");
    let p = "xlv_TEXCOORD0"@;
    let s = a + seq![c] + b;
    if text::contains_text(s, p) {
        let i = choose|i: int| text::occurs_at(s, p, i);
        let hit = s.subrange(i, i + p.len());
        let k = a.len() as int;
        if i + p.len() <= k {
            assert(a.subrange(i, i + p.len()) =~= hit);
            assert(text::occurs_at(a, p, i));
        } else if i > k {
            assert(b.subrange(i - k - 1, i - k - 1 + p.len()) =~= hit);
            assert(text::occurs_at(b, p, i - k - 1));
        } else {
            assert(hit[k - i] == s[k]);
            assert(p[k - i] == c);
        }
    }
}

/// A text without the letter that begins the long name lacks it, and so does one
/// that is too short.
proof fn lemma_lacks(s: Seq<char>)
    requires
        s.len() < 13 || !s.contains('x'),
    ensures
        lacks_long_name(s),
{
    reveal_strlit("xlv_TEXCOORD0");
    let p = "xlv_TEXCOORD0"@;
    if text::contains_text(s, p) {
        let i = choose|i: int| text::occurs_at(s, p, i);
        assert(s.subrange(i, i + p.len())[0] == s[i]);
        assert(s[i] == 'x');
    }
}

/// A part of a text without the long name lacks it too.
proof fn lemma_part_lacks_long_name(s: Seq<char>, part: Seq<char>)
    requires
        lacks_long_name(s),
        text::contains_text(s, part),
    ensures
        lacks_long_name(part),
{
    if text::contains_text(part, "xlv_TEXCOORD0"@) {
        lemma_part_of_part(s, part, "xlv_TEXCOORD0"@);
    }
}

/// The stores of the components lack the long name where the place does.
proof fn lemma_stores_lack_long_name(
    place: Seq<char>,
    swizzle: Seq<char>,
    tmp: Seq<char>,
    k: nat,
)
    requires
        lacks_long_name(place),
        lacks_long_name(tmp),
        k <= swizzle.len(),
    ensures
        lacks_long_name(glsl::component_stores(place, swizzle, tmp, k)),
    decreases k,
{
    let none = Seq::<char>::empty();
    lemma_lacks(none);
    if k > 0 {
        reveal_strlit(" ");
        reveal_strlit(".");
        reveal_strlit(" = ");
        reveal_strlit(";");
        lemma_stores_lack_long_name(place, swizzle, tmp, (k - 1) as nat);
        let before = glsl::component_stores(place, swizzle, tmp, (k - 1) as nat);
        let to = seq![swizzle[k - 1]];
        let from = seq![glsl::component(k - 1)];
        lemma_lacks(to);
        lemma_lacks(from);
        let s1 = before + seq![' '] + place;
        lemma_joined_lacks(before, ' ', place);
        let s2 = s1 + seq!['.'] + to;
        lemma_joined_lacks(s1, '.', to);
        let s3 = s2 + seq![' '] + none;
        lemma_joined_lacks(s2, ' ', none);
        let s4 = s3 + seq!['='] + none;
        lemma_joined_lacks(s3, '=', none);
        let s5 = s4 + seq![' '] + tmp;
        lemma_joined_lacks(s4, ' ', tmp);
        let s6 = s5 + seq!['.'] + from;
        lemma_joined_lacks(s5, '.', from);
        let s7 = s6 + seq![';'] + none;
        lemma_joined_lacks(s6, ';', none);
        assert(glsl::component_stores(place, swizzle, tmp, k) =~= s7);
    }
}

/// The expanded form of a store lacks the long name where its line does.
proof fn lemma_expanded_lacks_long_name(line: Seq<char>, n: nat)
    requires
        lacks_long_name(line),
        glsl::swizzle_store(line) is Some,
    ensures
        lacks_long_name(glsl::expanded_store(glsl::swizzle_store(line)->0, n)),
{
    reveal_strlit("vec2");
    reveal_strlit("vec3");
    reveal_strlit("vec4");
    reveal_strlit("_sws");
    reveal_strlit(" ");
    reveal_strlit(" = ");
    reveal_strlit(";");
    let none = Seq::<char>::empty();
    let store = glsl::swizzle_store(line)->0;
    lemma_store_parts(line);
    lemma_part_lacks_long_name(line, store.place);
    lemma_part_lacks_long_name(line, store.value);
    text::lemma_decimal_digits(n);
    let tmp = glsl::temporary(n);
    assert(!tmp.contains('x')) by {
        assert forall|i: int| 0 <= i < tmp.len() implies tmp[i] != 'x' by {
            if i >= 4 {
                assert(tmp[i] == text::decimal(n)[i - 4]);
            }
        }
    }
    lemma_lacks(tmp);
    lemma_lacks(none);
    let start = store.indent + glsl::vector_type(store.swizzle.len());
    assert(!start.contains('x')) by {
        assert forall|i: int| 0 <= i < start.len() implies start[i] != 'x' by {
            if i < store.indent.len() {
                assert(text::is_white_space(store.indent[i]));
            }
        }
    }
    lemma_lacks(start);
    let stores = glsl::component_stores(store.place, store.swizzle, tmp, store.swizzle.len());
    lemma_stores_lack_long_name(store.place, store.swizzle, tmp, store.swizzle.len());
    let s1 = start + seq![' '] + tmp;
    lemma_joined_lacks(start, ' ', tmp);
    let s2 = s1 + seq![' '] + none;
    lemma_joined_lacks(s1, ' ', none);
    let s3 = s2 + seq!['='] + none;
    lemma_joined_lacks(s2, '=', none);
    let s4 = s3 + seq![' '] + store.value;
    lemma_joined_lacks(s3, ' ', store.value);
    let s5 = s4 + seq![';'] + stores;
    lemma_joined_lacks(s4, ';', stores);
    assert(glsl::expanded_store(store, n) =~= s5);
}

/// Lines without the long name, expanded, make a text without it.
proof fn lemma_expanded_lines_lack_long_name(ls: Seq<Seq<char>>, n: nat)
    requires
        forall|i: int| 0 <= i < ls.len() ==> lacks_long_name(#[trigger] ls[i]),
    ensures
        lacks_long_name(glsl::expanded_lines(ls, n)),
    decreases ls.len(),
{
    if ls.len() == 0 {
        lemma_lacks(glsl::expanded_lines(ls, n));
    } else {
        let rest = ls.skip(1);
        assert forall|i: int| 0 <= i < rest.len() implies lacks_long_name(#[trigger] rest[i]) by {
            assert(rest[i] == ls[i + 1]);
        }
        assert(lacks_long_name(ls[0]));
        match glsl::swizzle_store(ls[0]) {
            Some(store) => {
                lemma_expanded_lines_lack_long_name(rest, n + 1);
                lemma_expanded_lacks_long_name(ls[0], n + 1);
                lemma_joined_lacks(
                    glsl::expanded_store(store, n + 1),
                    '\n',
                    glsl::expanded_lines(rest, n + 1),
                );
            },
            None => {
                lemma_expanded_lines_lack_long_name(rest, n);
                lemma_joined_lacks(ls[0], '\n', glsl::expanded_lines(rest, n));
            },
        }
    }
}

/// Cleaned lines make a text without the long name.
proof fn lemma_clean_lines_lack_long_name(ls: Seq<Seq<char>>)
    ensures
        lacks_long_name(glsl::clean_lines(ls)),
    decreases ls.len(),
{
    if ls.len() == 0 {
        lemma_lacks(glsl::clean_lines(ls));
    } else {
        lemma_clean_lines_lack_long_name(ls.skip(1));
        glsl::law_texture_coordinate_is_renamed_everywhere(ls[0]);
        lemma_joined_lacks(glsl::clean_line(ls[0]), '\n', glsl::clean_lines(ls.skip(1)));
    }
}

/// The rewritten body of a program nowhere holds the texture coordinate's long
/// name.
pub proof fn law_body_lacks_the_long_name(after: Seq<char>)
    ensures
        lacks_long_name(glsl::rewritten(after)),
{
    let cleaned = glsl::clean_lines(text::lines(glsl::with_ret_statement(glsl::main_body(after))));
    lemma_clean_lines_lack_long_name(text::lines(glsl::with_ret_statement(glsl::main_body(after))));
    lemma_lines_are_parts(cleaned);
    let ls = text::lines(cleaned);
    assert forall|i: int| 0 <= i < ls.len() implies lacks_long_name(#[trigger] ls[i]) by {
        lemma_part_lacks_long_name(cleaned, ls[i]);
    }
    lemma_expanded_lines_lack_long_name(ls, 0);
}

// ---------------------------------------------------------------------------
// The text before `main`
// ---------------------------------------------------------------------------
/// Lines that declare no writable copy contribute nothing.
proof fn lemma_nothing_hoisted(ls: Seq<Seq<char>>)
    requires
        forall|i: int| 0 <= i < ls.len() ==> glsl::hoisted_line(#[trigger] ls[i]).len() == 0,
    ensures
        glsl::hoisted(ls) == Seq::<char>::empty(),
    decreases ls.len(),
{
    if ls.len() > 0 {
        let rest = ls.skip(1);
        assert forall|i: int| 0 <= i < rest.len() implies glsl::hoisted_line(
            #[trigger] rest[i],
        ).len() == 0 by {
            assert(rest[i] == ls[i + 1]);
        }
        lemma_nothing_hoisted(rest);
        assert(glsl::hoisted_line(ls[0]).len() == 0);
        assert(glsl::hoisted(ls) =~= Seq::<char>::empty());
    }
}

/// Everything before `void main` is discarded but the declarations of writable
/// copies: of `head` and the program that follows it, these declarations and the
/// rewritten body are left, and the body alone where there are none.
pub proof fn law_text_before_main_is_discarded(head: Seq<char>, rest: Seq<char>)
    requires
        text::find(head + rest, "void main"@) == Some(head.len() as int),
    ensures
        glsl::processed(head + rest) == glsl::hoisted(text::lines(head)) + glsl::rewritten(rest),
        (forall|i: int|
            0 <= i < text::lines(head).len() ==> glsl::hoisted_line(
                #[trigger] text::lines(head)[i],
            ).len() == 0) ==> glsl::processed(head + rest) == glsl::rewritten(rest),
{
    let program = head + rest;
    assert(program.take(head.len() as int) =~= head);
    assert(program.skip(head.len() as int) =~= rest);
    if forall|i: int|
        0 <= i < text::lines(head).len() ==> glsl::hoisted_line(
            #[trigger] text::lines(head)[i],
        ).len() == 0 {
        lemma_nothing_hoisted(text::lines(head));
        assert(glsl::processed(program) =~= glsl::rewritten(rest));
    }
}

// ---------------------------------------------------------------------------
// The form of a store
// ---------------------------------------------------------------------------
/// How often `c` stands in `s`.
pub open spec fn times(s: Seq<char>, c: char) -> int
    decreases s.len(),
{
    if s.len() == 0 {
        0
    } else if s.last() == c {
        times(s.drop_last(), c) + 1
    } else {
        times(s.drop_last(), c)
    }
}

/// Every character of `s` is a letter, a digit, an underscore, a dot or a square
/// bracket.
pub open spec fn is_place_text(s: Seq<char>) -> bool {
    forall|i: int|
        0 <= i < s.len() ==> ({
            let c = #[trigger] s[i];
            ||| 'a' <= c <= 'z'
            ||| 'A' <= c <= 'Z'
            ||| '0' <= c <= '9'
            ||| c == '_' || c == '.' || c == '[' || c == ']'
        })
}

/// Two to four of the letters x, y, z and w.
pub open spec fn is_component_row(s: Seq<char>) -> bool {
    2 <= s.len() <= 4 && forall|i: int|
        0 <= i < s.len() ==> (#[trigger] s[i] == 'x' || s[i] == 'y' || s[i] == 'z' || s[i] == 'w')
}

/// Every character of `s` is white space.
pub open spec fn is_blank(s: Seq<char>) -> bool {
    forall|i: int| 0 <= i < s.len() ==> text::is_white_space(#[trigger] s[i])
}

/// The brackets that stand open are those that were opened and not closed.
proof fn lemma_nesting_is_counted(s: Seq<char>, i: int)
    requires
        0 <= i <= s.len(),
    ensures
        glsl::nesting(s, i) == times(s.take(i), '(') + times(s.take(i), '[') - times(
            s.take(i),
            ')',
        ) - times(s.take(i), ']'),
    decreases i,
{
    if i > 0 {
        lemma_nesting_is_counted(s, i - 1);
        assert(s.take(i).drop_last() =~= s.take(i - 1));
        assert(s.take(i).last() == s[i - 1]);
    }
}

/// A character that stands nowhere stands there no times.
proof fn lemma_times_of_none(s: Seq<char>, c: char)
    requires
        forall|i: int| 0 <= i < s.len() ==> #[trigger] s[i] != c,
    ensures
        times(s, c) == 0,
    decreases s.len(),
{
    if s.len() > 0 {
        assert(s.last() == s[s.len() - 1]);
        assert forall|i: int| 0 <= i < s.drop_last().len() implies #[trigger] s.drop_last()[i]
            != c by {
            assert(s.drop_last()[i] == s[i]);
        }
        lemma_times_of_none(s.drop_last(), c);
    }
}

/// What stands in two parts stands as often in both together.
proof fn lemma_times_of_both(a: Seq<char>, b: Seq<char>, c: char)
    ensures
        times(a + b, c) == times(a, c) + times(b, c),
    decreases b.len(),
{
    if b.len() == 0 {
        assert(a + b =~= a);
    } else {
        assert((a + b).drop_last() =~= a + b.drop_last());
        assert((a + b).last() == b.last());
        lemma_times_of_both(a, b.drop_last(), c);
    }
}

/// An `=` is a plain assignment exactly where as many round and square brackets
/// were closed before it as were opened, and it is no part of `==`, `<=`, `>=` or
/// `!=`.
pub proof fn law_plain_assignment(before: Seq<char>, behind: Seq<char>)
    ensures
        glsl::is_simple_assign(before + seq!['='] + behind, before.len() as int) <==> {
            &&& times(before, '(') + times(before, '[') == times(before, ')') + times(before, ']')
            &&& (before.len() > 0 ==> before.last() != '=' && before.last() != '<' && before.last()
                != '>' && before.last() != '!')
            &&& (behind.len() > 0 ==> behind[0] != '=')
        },
{
    let s = before + seq!['='] + behind;
    let i = before.len() as int;
    lemma_nesting_is_counted(s, i);
    assert(s.take(i) =~= before);
    if behind.len() > 0 {
        assert(s[i + 1] == behind[0]);
    }
    if before.len() > 0 {
        assert(s[i - 1] == before.last());
    }
}

/// The plain assignment that is found is the first one.
pub proof fn law_first_plain_assignment_is_found(s: Seq<char>, i: int)
    requires
        glsl::is_simple_assign(s, i),
        forall|j: int| 0 <= j < i ==> !#[trigger] glsl::is_simple_assign(s, j),
    ensures
        glsl::simple_assign(s) == Some(i),
{
    glsl::lemma_simple_assign_from(s, 0);
}

/// A place that can be stored to: it is not empty, begins and ends with something
/// other than white space, holds no arithmetic sign, question mark, opening
/// parenthesis, space or equals sign, and closes as many brackets as it opens.
pub open spec fn is_place(s: Seq<char>) -> bool {
    &&& s.len() > 0
    &&& !text::is_white_space(s[0])
    &&& !text::is_white_space(s.last())
    &&& forall|i: int|
        0 <= i < s.len() ==> (#[trigger] s[i]) != '+' && s[i] != '-' && s[i] != '*' && s[i] != '/'
            && s[i] != '?' && s[i] != '(' && s[i] != ' ' && s[i] != '='
    &&& times(s, '[') == times(s, ')') + times(s, ']')
}

/// A name with fields and indices is a place.
proof fn lemma_name_is_place(s: Seq<char>)
    requires
        s.len() > 0,
        is_place_text(s),
        times(s, '[') == times(s, ']'),
    ensures
        is_place(s),
{
    assert(s.last() == s[s.len() - 1]);
    lemma_times_of_none(s, ')');
}

/// What stands before the assignment sign of a store holds no other equals sign,
/// ends with none of the characters that a comparison begins with, and its brackets
/// are in balance.
#[verifier::spinoff_prover]
#[verifier::rlimit(50)]
proof fn lemma_left_side_is_plain(
    place: Seq<char>,
    space: Seq<char>,
    swizzle: Seq<char>,
    gap: Seq<char>,
)
    requires
        is_place(place),
        is_blank(space),
        is_component_row(swizzle),
        is_blank(gap),
    ensures
        ({
            let full = place + space + seq!['.'] + swizzle + gap;
            &&& forall|j: int| 0 <= j < full.len() ==> #[trigger] full[j] != '='
            &&& full.last() != '<' && full.last() != '>' && full.last() != '!'
            &&& times(full, '(') == 0
            &&& times(full, '[') == times(full, ')') + times(full, ']')
        }),
{
    let spaced = place + space;
    let dotted = spaced + seq!['.'];
    let left = dotted + swizzle;
    let full = left + gap;
    assert forall|j: int| 0 <= j < full.len() implies #[trigger] full[j] != '=' && full[j]
        != '(' by {
        if j < place.len() {
            assert(full[j] == place[j]);
        } else if j < spaced.len() {
            assert(full[j] == space[j - place.len()]);
        } else if j == spaced.len() {
            assert(full[j] == '.');
        } else if j < left.len() {
            assert(full[j] == swizzle[j - dotted.len()]);
        } else {
            assert(full[j] == gap[j - left.len()]);
        }
    }
    assert(full.last() != '<' && full.last() != '>' && full.last() != '!') by {
        if gap.len() > 0 {
            assert(full.last() == gap[gap.len() - 1]);
        } else {
            assert(full.last() == swizzle[swizzle.len() - 1]);
        }
    }
    lemma_times_of_none(full, '(');
    lemma_times_of_left_side(place, space, swizzle, gap, '[');
    lemma_times_of_left_side(place, space, swizzle, gap, ']');
    lemma_times_of_left_side(place, space, swizzle, gap, ')');
}

/// Brackets stand before the assignment sign of a store only in its place.
proof fn lemma_times_of_left_side(
    place: Seq<char>,
    space: Seq<char>,
    swizzle: Seq<char>,
    gap: Seq<char>,
    c: char,
)
    requires
        is_blank(space),
        is_component_row(swizzle),
        is_blank(gap),
        c == '[' || c == ']' || c == ')',
    ensures
        times(place + space + seq!['.'] + swizzle + gap, c) == times(place, c),
{
    let spaced = place + space;
    let dotted = spaced + seq!['.'];
    let left = dotted + swizzle;
    assert forall|j: int| 0 <= j < gap.len() implies #[trigger] gap[j] != c by {
        assert(text::is_white_space(gap[j]));
    }
    assert forall|j: int| 0 <= j < space.len() implies #[trigger] space[j] != c by {
        assert(text::is_white_space(space[j]));
    }
    lemma_times_of_none(gap, c);
    lemma_times_of_none(space, c);
    lemma_times_of_none(swizzle, c);
    lemma_times_of_none(seq!['.'], c);
    lemma_times_of_both(left, gap, c);
    lemma_times_of_both(dotted, swizzle, c);
    lemma_times_of_both(spaced, seq!['.'], c);
    lemma_times_of_both(place, space, c);
}

/// What stands before the assignment sign of a store comes apart at its last dot.
#[verifier::spinoff_prover]
#[verifier::rlimit(50)]
proof fn lemma_left_side_comes_apart(
    place: Seq<char>,
    space: Seq<char>,
    swizzle: Seq<char>,
    gap: Seq<char>,
)
    requires
        is_place(place),
        is_blank(space),
        is_component_row(swizzle),
        is_blank(gap),
    ensures
        ({
            let left = place + space + seq!['.'] + swizzle;
            let dot = (place + space).len() as int;
            &&& text::trim(left + gap) == left
            &&& text::rfind(left, "."@) == Some(dot)
            &&& left.skip(dot + 1) == swizzle
            &&& text::trim(left.take(dot)) == place
        }),
{
    let none = Seq::<char>::empty();
    let spaced = place + space;
    let left = spaced + seq!['.'] + swizzle;
    assert(left[0] == place[0]);
    assert(left.last() == swizzle[swizzle.len() - 1]);
    assert(none + left + gap =~= left + gap);
    text::law_trim_leaves_the_middle(none, left, gap);
    reveal_strlit(".");
    let dot = spaced.len() as int;
    assert("."@ =~= seq!['.']);
    assert(left.subrange(dot, dot + 1) =~= seq!['.']);
    text::lemma_rfind_below(left, "."@, left.len() + 1);
    assert(text::occurs_at(left, "."@, dot));
    let found = text::rfind(left, "."@)->0;
    if found > dot {
        assert(left.subrange(found, found + 1)[0] == left[found]);
        assert(left[found] == swizzle[found - dot - 1]);
    }
    assert(left.skip(dot + 1) =~= swizzle);
    assert(left.take(dot) =~= spaced);
    assert(none + place + space =~= spaced);
    text::law_trim_leaves_the_middle(none, place, space);
}

/// The assignment sign of a store is the first one of its statement.
proof fn lemma_store_sign(full: Seq<char>, value: Seq<char>)
    requires
        full.len() > 0,
        forall|j: int| 0 <= j < full.len() ==> #[trigger] full[j] != '=',
        full.last() != '<' && full.last() != '>' && full.last() != '!',
        times(full, '(') == 0,
        times(full, '[') == times(full, ')') + times(full, ']'),
        value.len() > 0 ==> value[0] != '=',
    ensures
        ({
            let stmt = full + seq!['='] + value;
            &&& glsl::simple_assign(stmt) == Some(full.len() as int)
            &&& stmt.take(full.len() as int) == full
            &&& stmt.skip(full.len() as int + 1) == value
        }),
{
    let stmt = full + seq!['='] + value;
    let q = full.len() as int;
    law_plain_assignment(full, value);
    assert(full.last() == full[q - 1]);
    assert forall|j: int| 0 <= j < q implies !#[trigger] glsl::is_simple_assign(stmt, j) by {
        assert(stmt[j] == full[j]);
    }
    law_first_plain_assignment_is_found(stmt, q);
    assert(stmt.take(q) =~= full);
    assert(stmt.skip(q + 1) =~= value);
}

/// Every line that stores to two to four components of a place is recognised as
/// such a store, with exactly its parts. There may be white space before the line,
/// before the dot and around the assignment sign.
#[verifier::spinoff_prover]
#[verifier::rlimit(50)]
pub proof fn law_store_is_recognised(
    indent: Seq<char>,
    place: Seq<char>,
    space: Seq<char>,
    swizzle: Seq<char>,
    gap: Seq<char>,
    value: Seq<char>,
)
    requires
        is_blank(indent),
        is_place(place),
        is_blank(space),
        is_component_row(swizzle),
        is_blank(gap),
        value.len() > 0 ==> value[0] != '=',
    ensures
        glsl::swizzle_store(
            indent + place + space + seq!['.'] + swizzle + gap + seq!['='] + value + seq![';'],
        ) == Some(glsl::SwizzleStore { indent, place, swizzle, value: text::trim(value) }),
{
    let p = |c: char| text::is_white_space(c);
    let left = place + space + seq!['.'] + swizzle;
    let full = left + gap;
    let stmt = full + seq!['='] + value;
    let code = stmt + seq![';'];
    let line = indent + place + space + seq!['.'] + swizzle + gap + seq!['='] + value + seq![';'];
    assert(line =~= indent + code);
    assert(code[0] == place[0]);
    assert forall|i: int| 0 <= i < indent.len() implies p(#[trigger] indent[i]) by {}
    text::lemma_trim_start_by_concat(indent, code, p);
    assert(text::trim_start(line) == code);
    assert(code.last() == ';');
    assert(code.drop_last() =~= stmt);
    assert(line.take(line.len() - code.len()) =~= indent);
    lemma_left_side_is_plain(place, space, swizzle, gap);
    lemma_store_sign(full, value);
    lemma_left_side_comes_apart(place, space, swizzle, gap);
    assert(glsl::is_swizzle(swizzle));
    assert forall|i: int| 0 <= i < place.len() implies !glsl::is_operator(#[trigger] place[i]) by {}
}

/// The usual store is recognised: white space, a name of letters, digits and
/// underscores with fields and indices, whose square brackets are as many closed as
/// opened, a dot, two to four of x, y, z and w, an assignment sign between spaces,
/// the value, and a semicolon.
#[verifier::spinoff_prover]
#[verifier::rlimit(50)]
pub proof fn law_usual_store_is_recognised(
    indent: Seq<char>,
    place: Seq<char>,
    swizzle: Seq<char>,
    value: Seq<char>,
)
    requires
        is_blank(indent),
        place.len() > 0,
        is_place_text(place),
        times(place, '[') == times(place, ']'),
        is_component_row(swizzle),
    ensures
        glsl::swizzle_store(indent + place + "."@ + swizzle + " = "@ + value + ";"@) == Some(
            glsl::SwizzleStore { indent, place, swizzle, value: text::trim(value) },
        ),
{
    reveal_strlit(".");
    reveal_strlit(" = ");
    reveal_strlit(";");
    let p = |c: char| text::is_white_space(c);
    let none = Seq::<char>::empty();
    let gap = seq![' '];
    let spaced = seq![' '] + value;
    lemma_name_is_place(place);
    law_store_is_recognised(indent, place, none, swizzle, gap, spaced);
    assert(indent + place + "."@ + swizzle + " = "@ + value + ";"@ =~= indent + place + none + seq![
        '.',
    ] + swizzle + gap + seq!['='] + spaced + seq![';']);
    assert(spaced.skip(1) =~= value);
    assert(p(spaced[0]));
    assert(text::trim_start(spaced) == text::trim_start(value));
}

/// What stands before the assignment sign of a recognised store, from its parts.
#[verifier::spinoff_prover]
#[verifier::rlimit(50)]
proof fn lemma_left_side_of_store(full: Seq<char>)
    requires
        text::rfind(text::trim(full), "."@) is Some,
        full.len() > 0 ==> !text::is_white_space(full[0]),
    ensures
        ({
            let lhs = text::trim(full);
            let dot = text::rfind(lhs, "."@)->0;
            let place = text::trim(lhs.take(dot));
            let gap = lhs.take(dot).skip(place.len() as int);
            let blank = full.skip(lhs.len() as int);
            &&& is_blank(gap)
            &&& is_blank(blank)
            &&& full == place + gap + seq!['.'] + lhs.skip(dot + 1) + blank
        }),
{
    reveal_strlit(".");
    let p = |c: char| text::is_white_space(c);
    text::lemma_trim_start_by(full, p);
    let lhs = text::trim(full);
    assert(text::trim_start(full) == full) by {
        if full.len() > 0 {
            assert(!p(full[0]));
            assert(full.skip(0) =~= full);
        }
    }
    text::lemma_trim_end_blank(full);
    let blank = full.skip(lhs.len() as int);
    assert(full =~= lhs + blank);
    text::lemma_rfind_below(lhs, "."@, lhs.len() + 1);
    let dot = text::rfind(lhs, "."@)->0;
    assert(lhs.subrange(dot, dot + 1)[0] == lhs[dot]);
    assert(lhs[dot] == '.');
    let before = lhs.take(dot);
    text::lemma_trim_start_by(before, p);
    assert(text::trim_start(before) == before) by {
        if before.len() > 0 {
            assert(before[0] == full[0]);
            assert(!p(before[0]));
            assert(before.skip(0) =~= before);
        }
    }
    text::lemma_trim_end_blank(before);
    let place = text::trim(before);
    let gap = before.skip(place.len() as int);
    assert(before =~= place + gap);
    assert(lhs =~= before + seq!['.'] + lhs.skip(dot + 1));
    assert(full =~= place + gap + seq!['.'] + lhs.skip(dot + 1) + blank);
}

/// Only a line of that form is taken for a store: white space, a place without
/// arithmetic, calls and spaces, a dot, two to four components, an assignment
/// sign, the value, and a semicolon at the very end.
#[verifier::spinoff_prover]
#[verifier::rlimit(50)]
pub proof fn law_only_a_store_is_recognised(line: Seq<char>)
    requires
        glsl::swizzle_store(line) is Some,
    ensures
        ({
            let store = glsl::swizzle_store(line)->0;
            &&& is_blank(store.indent)
            &&& is_component_row(store.swizzle)
            &&& store.place.len() > 0
            &&& forall|i: int|
                0 <= i < store.place.len() ==> (#[trigger] store.place[i]) != '+' && store.place[i]
                    != '-' && store.place[i] != '*' && store.place[i] != '/' && store.place[i]
                    != '?' && store.place[i] != '(' && store.place[i] != ' '
            &&& exists|gap: Seq<char>, blank: Seq<char>, value: Seq<char>|
                {
                    &&& is_blank(gap)
                    &&& is_blank(blank)
                    &&& store.value == text::trim(value)
                    &&& line == #[trigger] (store.indent + store.place + gap + seq!['.']
                        + store.swizzle + blank + seq!['='] + value + seq![';'])
                }
        }),
{
    let p = |c: char| text::is_white_space(c);
    let store = glsl::swizzle_store(line)->0;
    lemma_store_parts(line);
    text::lemma_trim_start_by(line, p);
    let code = text::trim_start(line);
    let stmt = code.drop_last();
    glsl::lemma_simple_assign_from(stmt, 0);
    let eq = glsl::simple_assign(stmt)->0;
    let full = stmt.take(eq);
    let value = stmt.skip(eq + 1);
    if full.len() > 0 {
        assert(full[0] == code[0]);
        assert(!p(code[0]));
    }
    lemma_left_side_of_store(full);
    let lhs = text::trim(full);
    let dot = text::rfind(lhs, "."@)->0;
    let gap = lhs.take(dot).skip(store.place.len() as int);
    let blank = full.skip(lhs.len() as int);
    assert(full == store.place + gap + seq!['.'] + store.swizzle + blank);
    assert(stmt =~= full + seq!['='] + value);
    assert(code =~= stmt + seq![';']);
    assert(line =~= store.indent + code);
    assert(line =~= store.indent + store.place + gap + seq!['.'] + store.swizzle + blank + seq![
        '=',
    ] + value + seq![';']);
    assert forall|i: int| 0 <= i < store.swizzle.len() implies (#[trigger] store.swizzle[i] == 'x'
        || store.swizzle[i] == 'y' || store.swizzle[i] == 'z' || store.swizzle[i] == 'w') by {
        assert(glsl::is_component(store.swizzle[i]));
    }
    assert forall|i: int| 0 <= i < store.place.len() implies (#[trigger] store.place[i]) != '+'
        && store.place[i] != '-' && store.place[i] != '*' && store.place[i] != '/'
        && store.place[i] != '?' && store.place[i] != '(' && store.place[i] != ' ' by {
        assert(!glsl::is_operator(store.place[i]));
    }
}

/// No line of an expanded text stores to several components of a place: none is
/// made of white space, a place, a dot, two to four components, an assignment sign,
/// a value and a semicolon. The lines of the text
/// before must not end with a carriage return of their own.
pub proof fn law_no_store_to_several_components_is_left(
    src: Seq<char>,
    i: int,
    indent: Seq<char>,
    place: Seq<char>,
    space: Seq<char>,
    swizzle: Seq<char>,
    gap: Seq<char>,
    value: Seq<char>,
)
    requires
        forall|k: int|
            0 <= k < text::lines(src).len() ==> ((#[trigger] text::lines(src)[k]).len() > 0
                ==> text::lines(src)[k].last() != '\r'),
        0 <= i < text::lines(glsl::expanded_lines(text::lines(src), 0)).len(),
        is_blank(indent),
        is_place(place),
        is_blank(space),
        is_component_row(swizzle),
        is_blank(gap),
        value.len() > 0 ==> value[0] != '=',
    ensures
        text::lines(glsl::expanded_lines(text::lines(src), 0))[i] != indent + place + space
            + seq!['.'] + swizzle + gap + seq!['='] + value + seq![';'],
{
    let ls = text::lines(src);
    lemma_lines_are_parts(src);
    assert forall|k: int| 0 <= k < ls.len() implies is_plain_line(#[trigger] ls[k]) by {}
    let list = expanded_list(ls, 0);
    lemma_expanded_list(ls, 0);
    lemma_expanded_list_is_plain(ls, 0);
    lemma_lines_of_joined(list);
    assert(glsl::swizzle_store(list[i]) is None);
    law_store_is_recognised(indent, place, space, swizzle, gap, value);
}

/// A replaced text has no character but those of the text and the replacement.
proof fn lemma_replace_adds_none(s: Seq<char>, from: Seq<char>, to: Seq<char>, c: char)
    requires
        !s.contains(c),
        !to.contains(c),
    ensures
        !text::replace(s, from, to).contains(c),
    decreases s.len(),
{
    let r = text::replace(s, from, to);
    if s.len() > 0 && from.len() > 0 {
        if text::starts_with(s, from) {
            let t = s.skip(from.len() as int);
            assert forall|k: int| 0 <= k < t.len() implies t[k] != c by {
                assert(t[k] == s[k + from.len()]);
            }
            lemma_replace_adds_none(t, from, to, c);
            let rest = text::replace(t, from, to);
            assert forall|k: int| 0 <= k < r.len() implies r[k] != c by {
                if k < to.len() {
                    assert(r[k] == to[k]);
                } else {
                    assert(r[k] == rest[k - to.len()]);
                }
            }
        } else {
            let t = s.skip(1);
            assert forall|k: int| 0 <= k < t.len() implies t[k] != c by {
                assert(t[k] == s[k + 1]);
            }
            lemma_replace_adds_none(t, from, to, c);
            let rest = text::replace(t, from, to);
            assert forall|k: int| 0 <= k < r.len() implies r[k] != c by {
                if k > 0 {
                    assert(r[k] == rest[k - 1]);
                }
            }
        }
    }
}

/// A cleaned line holds a carriage return only where the line does.
proof fn lemma_clean_line_adds_none(line: Seq<char>)
    requires
        !line.contains('\r'),
    ensures
        !glsl::clean_line(line).contains('\r'),
{
    reveal_strlit("");
    reveal_strlit("uv");
    let a = text::replace(line, "lowp "@, ""@);
    let b = text::replace(a, "highp "@, ""@);
    let c = text::replace(b, "mediump "@, ""@);
    lemma_replace_adds_none(line, "lowp "@, ""@, '\r');
    lemma_replace_adds_none(a, "highp "@, ""@, '\r');
    lemma_replace_adds_none(b, "mediump "@, ""@, '\r');
    lemma_replace_adds_none(c, "xlv_TEXCOORD0"@, "uv"@, '\r');
}

/// Cleaned lines hold a carriage return only where the lines do.
proof fn lemma_clean_lines_add_none(ls: Seq<Seq<char>>)
    requires
        forall|i: int| 0 <= i < ls.len() ==> !(#[trigger] ls[i]).contains('\r'),
    ensures
        !glsl::clean_lines(ls).contains('\r'),
    decreases ls.len(),
{
    if ls.len() > 0 {
        let rest = ls.skip(1);
        assert forall|i: int| 0 <= i < rest.len() implies !(#[trigger] rest[i]).contains('\r') by {
            assert(rest[i] == ls[i + 1]);
        }
        lemma_clean_lines_add_none(rest);
        assert(!ls[0].contains('\r'));
        lemma_clean_line_adds_none(ls[0]);
        let first = glsl::clean_line(ls[0]);
        let s = glsl::clean_lines(ls);
        assert forall|k: int| 0 <= k < s.len() implies s[k] != '\r' by {
            if k < first.len() {
                assert(s[k] == first[k]);
            } else if k > first.len() {
                assert(s[k] == glsl::clean_lines(rest)[k - first.len() - 1]);
            }
        }
    }
}

/// The body with its output renamed holds a carriage return only where the
/// program does.
#[verifier::spinoff_prover]
#[verifier::rlimit(50)]
proof fn lemma_body_adds_none(after: Seq<char>)
    requires
        !after.contains('\r'),
    ensures
        !glsl::with_ret_statement(glsl::main_body(after)).contains('\r'),
{
    let open = text::index_or_len(after, '{', 0);
    text::lemma_index_or_len(after, '{', 0);
    let braced = after.skip(open);
    let t = text::trim_end(braced);
    text::lemma_trim_end(braced);
    let body = glsl::main_body(after);
    assert forall|k: int| 0 <= k < body.len() implies body[k] != '\r' by {
        if t.len() > 0 && t[0] == '{' && t.last() == '}' {
            assert(body[k] == t[k + 1]);
            assert(t[k + 1] == braced[k + 1]);
            assert(braced[k + 1] == after[open + k + 1]);
        } else {
            assert(body[k] == after[open + k]);
        }
    }
    let s = glsl::with_ret_statement(body);
    match glsl::output_split(body) {
        None => {},
        Some((head, tail)) => {
            reveal_strlit("ret = ");
            reveal_strlit(".xyz;\n");
            let needle = "_glesFragData[0] = "@;
            text::lemma_rfind_below(body, needle, body.len() + 1);
            let pos = text::rfind(body, needle)->0;
            let rest = body.skip(pos + needle.len());
            text::lemma_index_or_len(rest, ';', 0);
            let semi = text::index_or_len(rest, ';', 0);
            let expr = rest.take(semi);
            let shown = text::trim(expr);
            text::lemma_trim_subset(expr);
            assert forall|k: int| 0 <= k < shown.len() implies shown[k] != '\r' by {
                assert(expr.contains(shown[k]));
                let j = choose|j: int| 0 <= j < expr.len() && expr[j] == shown[k];
                assert(expr[j] == body[pos + needle.len() + j]);
            }
            let start = body.take(pos) + "ret = "@;
            assert(head == start + shown + ".xyz;\n"@);
            assert forall|k: int| 0 <= k < head.len() implies head[k] != '\r' by {
                if k < pos {
                    assert(head[k] == body[k]);
                } else if k < start.len() {
                    assert(head[k] == "ret = "@[k - pos]);
                } else if k < start.len() + shown.len() {
                    assert(head[k] == shown[k - start.len()]);
                } else {
                    assert(head[k] == ".xyz;\n"@[k - start.len() - shown.len()]);
                }
            }
            let p = |c: char| c == '\n';
            text::lemma_trim_start_by(tail, p);
            let kept = text::trim_start_by(tail, p);
            let off = tail.len() - kept.len();
            assert forall|k: int| 0 <= k < s.len() implies s[k] != '\r' by {
                if k < head.len() {
                    assert(s[k] == head[k]);
                } else {
                    let j = k - head.len();
                    assert(s[k] == kept[j]);
                    assert(kept[j] == tail[off + j]);
                    assert(tail[off + j] == rest[semi + 1 + off + j]);
                    assert(rest[semi + 1 + off + j] == body[pos + needle.len() + semi + 1 + off
                        + j]);
                }
            }
        },
    }
}

/// No line of the rewritten body of a program assigns to several components of a
/// place at once, as long as the program is written without carriage returns.
pub proof fn law_rewritten_body_stores_one_component_at_a_time(
    after: Seq<char>,
    i: int,
    indent: Seq<char>,
    place: Seq<char>,
    space: Seq<char>,
    swizzle: Seq<char>,
    gap: Seq<char>,
    value: Seq<char>,
)
    requires
        !after.contains('\r'),
        0 <= i < text::lines(glsl::rewritten(after)).len(),
        is_blank(indent),
        is_place(place),
        is_blank(space),
        is_component_row(swizzle),
        is_blank(gap),
        value.len() > 0 ==> value[0] != '=',
    ensures
        text::lines(glsl::rewritten(after))[i] != indent + place + space + seq!['.'] + swizzle + gap
            + seq!['='] + value + seq![';'],
{
    lemma_body_adds_none(after);
    let body = glsl::with_ret_statement(glsl::main_body(after));
    let ls = text::lines(body);
    lemma_lines_are_parts(body);
    assert forall|k: int| 0 <= k < ls.len() implies !(#[trigger] ls[k]).contains('\r') by {
        lemma_part_lacks(body, ls[k], '\r');
    }
    lemma_clean_lines_add_none(ls);
    let cleaned = glsl::clean_lines(ls);
    let lines = text::lines(cleaned);
    lemma_lines_are_parts(cleaned);
    assert forall|k: int| 0 <= k < lines.len() && (#[trigger] lines[k]).len() > 0 implies lines[k].last()
        != '\r' by {
        lemma_part_lacks(cleaned, lines[k], '\r');
        assert(lines[k].last() == lines[k][lines[k].len() - 1]);
    }
    law_no_store_to_several_components_is_left(
        cleaned,
        i,
        indent,
        place,
        space,
        swizzle,
        gap,
        value,
    );
}

/// What stores component `c` of temporary `tmp` to component `to` of `place`.
pub open spec fn component_store(place: Seq<char>, to: char, tmp: Seq<char>, c: char) -> Seq<char> {
    " "@ + place + "."@ + seq![to] + " = "@ + tmp + "."@ + seq![c] + ";"@
}

/// The stores of the components, one more.
proof fn lemma_next_component_store(place: Seq<char>, swizzle: Seq<char>, tmp: Seq<char>, k: nat)
    requires
        k > 0,
    ensures
        glsl::component_stores(place, swizzle, tmp, k) == glsl::component_stores(
            place,
            swizzle,
            tmp,
            (k - 1) as nat,
        ) + component_store(place, swizzle[k - 1], tmp, glsl::component(k - 1)),
{
    let before = glsl::component_stores(place, swizzle, tmp, (k - 1) as nat);
    assert(glsl::component_stores(place, swizzle, tmp, k) =~= before + component_store(
        place,
        swizzle[k - 1],
        tmp,
        glsl::component(k - 1),
    ));
}

/// How texts are put together in groups makes no difference.
proof fn lemma_grouping(h: Seq<char>, a: Seq<char>, b: Seq<char>, c: Seq<char>, d: Seq<char>)
    ensures
        h + (Seq::<char>::empty() + a + b) == h + a + b,
        h + (Seq::<char>::empty() + a + b + c) == h + a + b + c,
        h + (Seq::<char>::empty() + a + b + c + d) == h + a + b + c + d,
{
    assert(h + (Seq::<char>::empty() + a + b) =~= h + a + b);
    assert(h + (Seq::<char>::empty() + a + b + c) =~= h + a + b + c);
    assert(h + (Seq::<char>::empty() + a + b + c + d) =~= h + a + b + c + d);
}

/// A store to several components becomes one line that computes its value once,
/// in a temporary of the right size, and stores the temporary's components, one
/// by one and in order, to the components that the store names.
#[verifier::spinoff_prover]
#[verifier::rlimit(50)]
pub proof fn law_store_is_expanded_component_by_component(store: glsl::SwizzleStore, n: nat)
    ensures
        ({
            let tmp = "_sws"@ + text::decimal(n);
            let head = |size: Seq<char>|
                store.indent + size + " "@ + tmp + " = "@ + store.value + ";"@;
            let part = |k: int, c: char| component_store(store.place, store.swizzle[k], tmp, c);
            &&& (store.swizzle.len() == 2 ==> glsl::expanded_store(store, n) == head("vec2"@)
                + part(0, 'x') + part(1, 'y'))
            &&& (store.swizzle.len() == 3 ==> glsl::expanded_store(store, n) == head("vec3"@)
                + part(0, 'x') + part(1, 'y') + part(2, 'z'))
            &&& (store.swizzle.len() == 4 ==> glsl::expanded_store(store, n) == head("vec4"@)
                + part(0, 'x') + part(1, 'y') + part(2, 'z') + part(3, 'w'))
        }),
{
    let tmp = "_sws"@ + text::decimal(n);
    let size = glsl::vector_type(store.swizzle.len());
    let head = store.indent + size + " "@ + tmp + " = "@ + store.value + ";"@;
    let a = component_store(store.place, store.swizzle[0], tmp, 'x');
    let b = component_store(store.place, store.swizzle[1], tmp, 'y');
    let c = component_store(store.place, store.swizzle[2], tmp, 'z');
    let d = component_store(store.place, store.swizzle[3], tmp, 'w');
    lemma_next_component_store(store.place, store.swizzle, tmp, 1);
    lemma_next_component_store(store.place, store.swizzle, tmp, 2);
    lemma_next_component_store(store.place, store.swizzle, tmp, 3);
    lemma_next_component_store(store.place, store.swizzle, tmp, 4);
    assert(glsl::component_stores(store.place, store.swizzle, tmp, 0) == Seq::<char>::empty());
    lemma_grouping(head, a, b, c, d);
}

/// How many of the lines store to several components.
pub open spec fn stores_among(ls: Seq<Seq<char>>) -> nat
    decreases ls.len(),
{
    if ls.len() == 0 {
        0
    } else if glsl::swizzle_store(ls.last()) is Some {
        stores_among(ls.drop_last()) + 1
    } else {
        stores_among(ls.drop_last())
    }
}

/// The first line counts like every other.
proof fn lemma_stores_from_the_front(ls: Seq<Seq<char>>)
    requires
        ls.len() > 0,
    ensures
        stores_among(ls) == stores_among(ls.skip(1)) + (if glsl::swizzle_store(ls[0]) is Some {
            1nat
        } else {
            0
        }),
    decreases ls.len(),
{
    if ls.len() == 1 {
        assert(ls.drop_last() =~= Seq::<Seq<char>>::empty());
        assert(ls.skip(1) =~= Seq::<Seq<char>>::empty());
    } else {
        lemma_stores_from_the_front(ls.drop_last());
        assert(ls.drop_last().skip(1) =~= ls.skip(1).drop_last());
        assert(ls.skip(1).last() == ls.last());
    }
}

/// Every line comes through on its own line, a store in its expanded form and
/// every other line as it is; the temporaries are numbered from one on, in the
/// order of the stores, so that no two stores share one.
pub proof fn law_lines_are_expanded_one_by_one(ls: Seq<Seq<char>>, n: nat, i: int)
    requires
        0 <= i < ls.len(),
    ensures
        glsl::expanded_lines(ls, n) == glsl::joined_lines(expanded_list(ls, n)),
        expanded_list(ls, n).len() == ls.len(),
        expanded_list(ls, n)[i] == (match glsl::swizzle_store(ls[i]) {
            Some(store) => glsl::expanded_store(store, n + stores_among(ls.take(i)) + 1),
            None => ls[i],
        }),
    decreases ls.len(),
{
    lemma_expanded_list(ls, n);
    let m = if glsl::swizzle_store(ls[0]) is Some {
        n + 1
    } else {
        n
    };
    if i > 0 {
        let rest = ls.skip(1);
        law_lines_are_expanded_one_by_one(rest, m, i - 1);
        assert(expanded_list(ls, n)[i] == expanded_list(rest, m)[i - 1]);
        lemma_stores_from_the_front(ls.take(i));
        assert(ls.take(i).skip(1) =~= rest.take(i - 1));
        assert(rest[i - 1] == ls[i]);
    } else {
        assert(ls.take(0) =~= Seq::<Seq<char>>::empty());
    }
}

/// Joined lines are the lines, each followed by a line feed.
pub proof fn law_joined_lines_follow_one_another(ls: Seq<Seq<char>>, line: Seq<char>)
    ensures
        glsl::joined_lines(ls.push(line)) == glsl::joined_lines(ls) + line + seq!['\n'],
        glsl::joined_lines(Seq::empty()) == Seq::<char>::empty(),
    decreases ls.len(),
{
    let both = ls.push(line);
    if ls.len() == 0 {
        assert(both.skip(1) =~= Seq::<Seq<char>>::empty());
        assert(glsl::joined_lines(both.skip(1)) =~= Seq::<char>::empty());
        assert(glsl::joined_lines(both) =~= glsl::joined_lines(ls) + line + seq!['\n']);
    } else {
        law_joined_lines_follow_one_another(ls.skip(1), line);
        assert(both.skip(1) =~= ls.skip(1).push(line));
        assert(glsl::joined_lines(both) =~= glsl::joined_lines(ls) + line + seq!['\n']);
    }
}

/// Different numbers give different temporaries.
pub proof fn law_temporaries_are_distinct(a: nat, b: nat)
    requires
        glsl::temporary(a) == glsl::temporary(b),
    ensures
        a == b,
{
    reveal_strlit("_sws");
    text::law_decimal_reads_back(a);
    text::law_decimal_reads_back(b);
    assert(glsl::temporary(a).skip(4) =~= text::decimal(a));
    assert(glsl::temporary(b).skip(4) =~= text::decimal(b));
}

// ---------------------------------------------------------------------------
// The fragment output
// ---------------------------------------------------------------------------
/// The last assignment to the fragment output becomes one of the three colour
/// components to `ret`: what comes before it stays, its value is trimmed, and of
/// what follows its semicolon only the leading line feeds shrink to one.
#[verifier::spinoff_prover]
#[verifier::rlimit(50)]
pub proof fn law_output_becomes_ret(
    before: Seq<char>,
    expr: Seq<char>,
    feeds: Seq<char>,
    rest: Seq<char>,
)
    requires
        !expr.contains(';'),
        forall|i: int| 0 <= i < feeds.len() ==> #[trigger] feeds[i] == '\n',
        rest.len() > 0 ==> rest[0] != '\n',
        forall|i: int|
            i > before.len() ==> !#[trigger] text::occurs_at(
                before + "_glesFragData[0] = "@ + expr + seq![';'] + feeds + rest,
                "_glesFragData[0] = "@,
                i,
            ),
    ensures
        ({
            let s = before + "_glesFragData[0] = "@ + expr + seq![';'] + feeds + rest;
            let ret = before + "ret = "@ + text::trim(expr) + ".xyz;\n"@;
            &&& glsl::with_ret_statement(s) == ret + rest
            &&& glsl::with_ret(s) == (if feeds.len() == 1 && rest.len() > 0 && rest[0] == '}' {
                ret + rest.skip(1)
            } else {
                ret + rest
            })
        }),
{
    let needle = "_glesFragData[0] = "@;
    let behind = expr + seq![';'] + feeds + rest;
    let s = before + needle + expr + seq![';'] + feeds + rest;
    assert(s =~= before + needle + behind);
    let k = before.len() as int;
    text::law_text_stands_between(before, needle, behind, s);
    assert(text::occurs_at(s, needle, k));
    text::lemma_rfind_below(s, needle, s.len() + 1);
    let pos = text::rfind(s, needle)->0;
    assert(pos == k) by {
        if pos > k {
            assert(!text::occurs_at(s, needle, pos));
        }
    }
    assert(s.skip(k + needle.len()) =~= behind);
    text::lemma_index_or_len(behind, ';', 0);
    let semi = text::index_or_len(behind, ';', 0);
    assert(behind[expr.len() as int] == ';');
    assert(semi == expr.len()) by {
        if semi < expr.len() {
            assert(behind[semi] == expr[semi]);
        }
    }
    assert(behind.take(semi) =~= expr);
    let tail = feeds + rest;
    assert(behind.skip(semi + 1) =~= tail);
    assert(s.take(k) =~= before);
    let p = |c: char| c == '\n';
    if rest.len() > 0 {
        assert forall|i: int| 0 <= i < feeds.len() implies p(#[trigger] feeds[i]) by {}
        text::lemma_trim_start_by_concat(feeds, rest, p);
    } else {
        assert(tail =~= feeds);
        text::lemma_trim_start_by(feeds, p);
        let left = text::trim_start_by(feeds, p);
        if left.len() > 0 {
            assert(left[0] == feeds[feeds.len() - left.len()]);
            assert(!p(left[0]));
        }
        assert(left =~= rest);
    }
    if feeds.len() == 1 && rest.len() > 0 && rest[0] == '}' {
        assert(tail[0] == feeds[0]);
        assert(tail[1] == rest[0]);
        assert(tail.skip(2) =~= rest.skip(1));
    } else {
        assert(!glsl::closes(tail)) by {
            if tail.len() >= 2 {
                if feeds.len() == 0 {
                    assert(tail[0] == rest[0]);
                } else if feeds.len() == 1 {
                    assert(tail[1] == rest[0]);
                } else {
                    assert(tail[1] == feeds[1]);
                }
            }
        }
    }
}

/// An assignment to the fragment output that no semicolon ends is left as it is.
#[verifier::spinoff_prover]
#[verifier::rlimit(50)]
pub proof fn law_unfinished_output_stays(before: Seq<char>, rest: Seq<char>)
    requires
        !rest.contains(';'),
        forall|i: int|
            i > before.len() ==> !#[trigger] text::occurs_at(
                before + "_glesFragData[0] = "@ + rest,
                "_glesFragData[0] = "@,
                i,
            ),
    ensures
        ({
            let s = before + "_glesFragData[0] = "@ + rest;
            glsl::with_ret_statement(s) == s && glsl::with_ret(s) == s
        }),
{
    let needle = "_glesFragData[0] = "@;
    let s = before + needle + rest;
    let k = before.len() as int;
    text::law_text_stands_between(before, needle, rest, s);
    assert(text::occurs_at(s, needle, k));
    text::lemma_rfind_below(s, needle, s.len() + 1);
    let pos = text::rfind(s, needle)->0;
    assert(pos == k) by {
        if pos > k {
            assert(!text::occurs_at(s, needle, pos));
        }
    }
    assert(s.skip(k + needle.len()) =~= rest);
    text::lemma_index_or_len(rest, ';', 0);
    let semi = text::index_or_len(rest, ';', 0);
    if semi < rest.len() {
        assert(rest[semi] == ';');
    }
}

/// A text that assigns nothing to the fragment output is left as it is.
pub proof fn law_text_without_output_stays(s: Seq<char>)
    requires
        forall|i: int| !#[trigger] text::occurs_at(s, "_glesFragData[0] = "@, i),
    ensures
        glsl::with_ret_statement(s) == s,
        glsl::with_ret(s) == s,
{
    text::lemma_rfind_below(s, "_glesFragData[0] = "@, s.len() + 1);
}

// ---------------------------------------------------------------------------
// The body
// ---------------------------------------------------------------------------
/// The body of a function is what stands between its first opening brace and the
/// closing brace at its end, behind which only white space follows.
#[verifier::spinoff_prover]
#[verifier::rlimit(50)]
pub proof fn law_body_is_between_the_braces(
    before: Seq<char>,
    inside: Seq<char>,
    behind: Seq<char>,
)
    requires
        !before.contains('{'),
        is_blank(behind),
    ensures
        glsl::main_body(before + seq!['{'] + inside + seq!['}'] + behind) == inside,
        glsl::main_body(before) == Seq::<char>::empty(),
{
    let block = seq!['{'] + inside + seq!['}'];
    let after = before + seq!['{'] + inside + seq!['}'] + behind;
    assert(after =~= before + (block + behind));
    text::lemma_index_or_len(after, '{', 0);
    let open = text::index_or_len(after, '{', 0);
    assert(after[before.len() as int] == '{');
    assert(open == before.len()) by {
        if open < before.len() {
            assert(after[open] == before[open]);
        }
    }
    assert(after.skip(open) =~= block + behind);
    let none = Seq::<char>::empty();
    assert(none + block + behind =~= block + behind);
    assert(block.last() == '}');
    text::law_trim_leaves_the_middle(none, block, behind);
    assert(block.subrange(1, block.len() - 1) =~= inside);
    text::lemma_index_or_len(before, '{', 0);
    let end = text::index_or_len(before, '{', 0);
    if end < before.len() {
        assert(before[end] == '{');
    }
    assert(before.skip(before.len() as int) =~= none);
    assert(none.skip(0) =~= none);
}

/// A function whose last character, white space aside, is no closing brace keeps its
/// opening brace.
#[verifier::spinoff_prover]
#[verifier::rlimit(50)]
pub proof fn law_unclosed_body_stays(before: Seq<char>, inside: Seq<char>, behind: Seq<char>)
    requires
        !before.contains('{'),
        is_blank(behind),
        inside.len() > 0 ==> !text::is_white_space(inside.last()) && inside.last() != '}',
    ensures
        glsl::main_body(before + seq!['{'] + inside + behind) == seq!['{'] + inside + behind,
{
    let none = Seq::<char>::empty();
    let block = seq!['{'] + inside;
    let after = before + seq!['{'] + inside + behind;
    assert(after =~= before + (block + behind));
    text::lemma_index_or_len(after, '{', 0);
    let open = text::index_or_len(after, '{', 0);
    assert(after[before.len() as int] == '{');
    assert(open == before.len()) by {
        if open < before.len() {
            assert(after[open] == before[open]);
        }
    }
    assert(after.skip(open) =~= block + behind);
    assert(none + block + behind =~= block + behind);
    if inside.len() > 0 {
        assert(block.last() == inside.last());
    } else {
        assert(block.last() == '{');
    }
    text::law_trim_leaves_the_middle(none, block, behind);
}

/// A function's body is rewritten in this order: its output is renamed, then each
/// line is cleaned, then the stores are expanded with temporaries numbered from
/// one on.
pub proof fn law_body_is_rewritten(before: Seq<char>, inside: Seq<char>, behind: Seq<char>)
    requires
        !before.contains('{'),
        is_blank(behind),
    ensures
        glsl::rewritten(before + seq!['{'] + inside + seq!['}'] + behind) == glsl::expanded_lines(
            text::lines(glsl::clean_lines(text::lines(glsl::with_ret_statement(inside)))),
            0,
        ),
        glsl::rewritten(behind) == glsl::expanded_lines(
            text::lines(
                glsl::clean_lines(text::lines(glsl::with_ret_statement(glsl::main_body(behind)))),
            ),
            0,
        ),
{
    law_body_is_between_the_braces(before, inside, behind);
}

/// A program is cut where `void main` first stands in it.
pub proof fn law_program_is_cut_at_main(head: Seq<char>, rest: Seq<char>)
    requires
        forall|i: int|
            0 <= i < head.len() ==> !#[trigger] text::occurs_at(
                head + "void main"@ + rest,
                "void main"@,
                i,
            ),
    ensures
        glsl::main_start(head + "void main"@ + rest) == head.len(),
        glsl::processed(head + "void main"@ + rest) == glsl::hoisted(text::lines(head))
            + glsl::rewritten("void main"@ + rest),
{
    let program = head + "void main"@ + rest;
    text::law_text_stands_between(head, "void main"@, rest, program);
    text::lemma_find_from(program, "void main"@, 0);
    let k = text::find(program, "void main"@)->0;
    assert(text::occurs_at(program, "void main"@, head.len() as int));
    assert(k == head.len()) by {
        if k < head.len() {
            assert(!text::occurs_at(program, "void main"@, k));
        }
    }
    assert(program.take(k) =~= head);
    assert(program.skip(k) =~= "void main"@ + rest);
}

// ---------------------------------------------------------------------------
// Writable copies
// ---------------------------------------------------------------------------
/// A line of the file scope without the white space around it and without its
/// precision qualifier.
#[verifier::spinoff_prover]
#[verifier::rlimit(50)]
proof fn lemma_without_precision(
    before: Seq<char>,
    precision: Seq<char>,
    declaration: Seq<char>,
    behind: Seq<char>,
)
    requires
        is_blank(before),
        is_blank(behind),
        precision == "lowp "@ || precision == "mediump "@ || precision == "highp "@ || (
        precision.len() == 0 && !text::is_white_space(declaration[0]) && !text::starts_with(
            declaration,
            "lowp "@,
        ) && !text::starts_with(declaration, "mediump "@) && !text::starts_with(
            declaration,
            "highp "@,
        )),
        declaration.len() > 0,
        !text::is_white_space(declaration.last()),
    ensures
        glsl::without_precision(text::trim(before + precision + declaration + behind))
            == declaration,
{
    reveal_strlit("lowp ");
    reveal_strlit("mediump ");
    reveal_strlit("highp ");
    let t = precision + declaration;
    let line = before + precision + declaration + behind;
    assert(line =~= before + t + behind);
    assert(t.last() == declaration.last());
    if precision.len() == 0 {
        assert(t =~= declaration);
    } else {
        assert(t[0] == precision[0]);
    }
    text::law_trim_leaves_the_middle(before, t, behind);
    if precision.len() > 0 {
        text::law_text_stands_between(Seq::empty(), precision, declaration, t);
        assert(t.skip(precision.len() as int) =~= declaration);
        if text::starts_with(t, "lowp "@) {
            assert(t.subrange(0, 5)[0] == t[0]);
        }
        if text::starts_with(t, "mediump "@) {
            assert(t.subrange(0, 8)[0] == t[0]);
        }
        if text::starts_with(t, "highp "@) {
            assert(t.subrange(0, 6)[0] == t[0]);
        }
    }
}

/// A declaration of a writable copy is put at the top of the body, indented,
/// without the white space around it and without one precision qualifier.
pub proof fn law_writable_copy_is_hoisted(
    before: Seq<char>,
    precision: Seq<char>,
    declaration: Seq<char>,
    behind: Seq<char>,
)
    requires
        is_blank(before),
        is_blank(behind),
        precision == "lowp "@ || precision == "mediump "@ || precision == "highp "@ || (
        precision.len() == 0 && !text::is_white_space(declaration[0]) && !text::starts_with(
            declaration,
            "lowp "@,
        ) && !text::starts_with(declaration, "mediump "@) && !text::starts_with(
            declaration,
            "highp "@,
        )),
        declaration.len() > 0,
        declaration.last() == ';',
        text::contains_text(declaration, "xlat_mutable"@),
        !declaration.contains('{'),
        !text::starts_with(declaration, "uniform"@),
        !text::starts_with(declaration, "in "@),
        !text::starts_with(declaration, "out "@),
        !text::starts_with(declaration, "layout"@),
    ensures
        glsl::hoisted_line(before + precision + declaration + behind) == "    "@ + declaration
            + seq!['\n'],
{
    lemma_without_precision(before, precision, declaration, behind);
}

/// Every other line of the file scope is dropped: one that names no writable copy,
/// one that is no whole declaration or opens a block, and one that declares an
/// interface variable or a layout, whatever its precision and its indentation.
pub proof fn law_other_lines_are_dropped(
    before: Seq<char>,
    precision: Seq<char>,
    declaration: Seq<char>,
    behind: Seq<char>,
)
    requires
        is_blank(before),
        is_blank(behind),
        precision == "lowp "@ || precision == "mediump "@ || precision == "highp "@ || (
        precision.len() == 0 && !text::is_white_space(declaration[0]) && !text::starts_with(
            declaration,
            "lowp "@,
        ) && !text::starts_with(declaration, "mediump "@) && !text::starts_with(
            declaration,
            "highp "@,
        )),
        declaration.len() > 0,
        !text::is_white_space(declaration.last()),
        declaration.last() != ';' || !text::contains_text(declaration, "xlat_mutable"@)
            || declaration.contains('{') || text::starts_with(declaration, "uniform"@)
            || text::starts_with(declaration, "in "@) || text::starts_with(declaration, "out "@)
            || text::starts_with(declaration, "layout"@),
    ensures
        glsl::hoisted_line(before + precision + declaration + behind) == Seq::<char>::empty(),
{
    lemma_without_precision(before, precision, declaration, behind);
}

/// A blank line of the file scope is dropped.
pub proof fn law_blank_lines_are_dropped(line: Seq<char>)
    requires
        is_blank(line),
    ensures
        glsl::hoisted_line(line) == Seq::<char>::empty(),
{
    text::law_trim_of_white_space(line);
    reveal_strlit("lowp ");
    reveal_strlit("mediump ");
    reveal_strlit("highp ");
}

/// What the file scope contributes comes line by line, in the order of the lines.
pub proof fn law_copies_keep_their_order(ls: Seq<Seq<char>>, line: Seq<char>)
    ensures
        glsl::hoisted(ls.push(line)) == glsl::hoisted(ls) + glsl::hoisted_line(line),
        glsl::hoisted(Seq::empty()) == Seq::<char>::empty(),
    decreases ls.len(),
{
    let both = ls.push(line);
    if ls.len() == 0 {
        assert(both.skip(1) =~= Seq::<Seq<char>>::empty());
        assert(glsl::hoisted(both.skip(1)) =~= Seq::<char>::empty());
        assert(glsl::hoisted(both) =~= glsl::hoisted(ls) + glsl::hoisted_line(line));
    } else {
        law_copies_keep_their_order(ls.skip(1), line);
        assert(both.skip(1) =~= ls.skip(1).push(line));
        assert(glsl::hoisted(both) =~= glsl::hoisted(ls) + glsl::hoisted_line(line));
    }
}

// ---------------------------------------------------------------------------
// Cleaned lines
// ---------------------------------------------------------------------------
/// None of the precision qualifiers and not the texture coordinate's long name
/// stands at index `i` of `s`.
pub open spec fn is_clean_at(s: Seq<char>, i: int) -> bool {
    &&& !text::occurs_at(s, "lowp "@, i)
    &&& !text::occurs_at(s, "highp "@, i)
    &&& !text::occurs_at(s, "mediump "@, i)
    &&& !text::occurs_at(s, "xlv_TEXCOORD0"@, i)
}

/// What is clean everywhere holds nothing to replace.
proof fn lemma_clean_holds_none(s: Seq<char>, p: Seq<char>)
    requires
        forall|i: int| #[trigger] is_clean_at(s, i),
        p == "lowp "@ || p == "highp "@ || p == "mediump "@ || p == "xlv_TEXCOORD0"@,
    ensures
        !text::contains_text(s, p),
{
    assert forall|i: int| !text::occurs_at(s, p, i) by {
        assert(is_clean_at(s, i));
    }
}

/// Replacing the one place where `from` stands.
proof fn lemma_replace_one(a: Seq<char>, from: Seq<char>, to: Seq<char>, b: Seq<char>)
    requires
        from.len() > 0,
        forall|i: int| i != a.len() ==> !#[trigger] text::occurs_at(a + from + b, from, i),
    ensures
        text::replace(a + from + b, from, to) == a + to + b,
{
    let s = a + from + b;
    text::law_replacing_goes_from_the_left(a, from, to, b);
    let none = Seq::<char>::empty();
    assert(!text::contains_text(b, from)) by {
        if text::contains_text(b, from) {
            let j = choose|j: int| text::occurs_at(b, from, j);
            let k = a.len() + from.len() + j;
            assert(s.subrange(k, k + from.len()) =~= b.subrange(j, j + from.len()));
            assert(text::occurs_at(s, from, k));
        }
    }
    text::law_replacing_goes_from_the_left(b, from, to, none);
}

/// A precision qualifier goes out of its line, and the texture coordinate gets its
/// short name; nothing else of the line changes. Stated of a line that holds one of
/// these once, and in which its going brings no other one about.
#[verifier::spinoff_prover]
#[verifier::rlimit(50)]
pub proof fn law_line_is_cleaned(a: Seq<char>, word: Seq<char>, b: Seq<char>)
    requires
        word == "lowp "@ || word == "highp "@ || word == "mediump "@ || word == "xlv_TEXCOORD0"@,
        forall|i: int| i != a.len() ==> #[trigger] is_clean_at(a + word + b, i),
        word != "xlv_TEXCOORD0"@ ==> forall|i: int| #[trigger] is_clean_at(a + b, i),
    ensures
        glsl::clean_line(a + word + b) == (if word == "xlv_TEXCOORD0"@ {
            a + "uv"@ + b
        } else {
            a + b
        }),
{
    reveal_strlit("lowp ");
    reveal_strlit("highp ");
    reveal_strlit("mediump ");
    reveal_strlit("xlv_TEXCOORD0");
    reveal_strlit("");
    let s = a + word + b;
    let k = a.len() as int;
    assert(s[k] == word[0]);
    assert forall|p: Seq<char>, i: int|
        (p == "lowp "@ || p == "highp "@ || p == "mediump "@ || p == "xlv_TEXCOORD0"@) && (p != word
            || i != k) implies !#[trigger] text::occurs_at(s, p, i) by {
        if i != k {
            assert(is_clean_at(s, i));
        } else if text::occurs_at(s, p, i) {
            assert(s.subrange(i, i + p.len())[0] == s[k]);
            assert(p[0] == word[0]);
        }
    }
    if word == "xlv_TEXCOORD0"@ {
        assert(!text::contains_text(s, "lowp "@));
        assert(!text::contains_text(s, "highp "@));
        assert(!text::contains_text(s, "mediump "@));
        glsl::lemma_replace_of_none(s, "lowp "@, ""@);
        glsl::lemma_replace_of_none(s, "highp "@, ""@);
        glsl::lemma_replace_of_none(s, "mediump "@, ""@);
        lemma_replace_one(a, word, "uv"@, b);
    } else {
        lemma_replace_one(a, word, ""@, b);
        assert(a + ""@ + b =~= a + b);
        let t = a + b;
        lemma_clean_holds_none(t, "lowp "@);
        lemma_clean_holds_none(t, "highp "@);
        lemma_clean_holds_none(t, "mediump "@);
        lemma_clean_holds_none(t, "xlv_TEXCOORD0"@);
        glsl::lemma_replace_of_none(t, "highp "@, ""@);
        glsl::lemma_replace_of_none(t, "mediump "@, ""@);
        glsl::lemma_replace_of_none(t, "xlv_TEXCOORD0"@, "uv"@);
        if word != "lowp "@ {
            assert(!text::contains_text(s, "lowp "@));
            glsl::lemma_replace_of_none(s, "lowp "@, ""@);
        }
        if word == "mediump "@ {
            assert(!text::contains_text(s, "highp "@));
            glsl::lemma_replace_of_none(s, "highp "@, ""@);
        }
    }
}

/// A line is cleaned of one qualifier after the other, and the texture coordinate is
/// renamed in what is left.
pub proof fn law_line_is_cleaned_in_order(line: Seq<char>)
    ensures
        ({
            let without_low = text::replace(line, "lowp "@, ""@);
            let without_high = text::replace(without_low, "highp "@, ""@);
            let without_any = text::replace(without_high, "mediump "@, ""@);
            glsl::clean_line(line) == text::replace(without_any, "xlv_TEXCOORD0"@, "uv"@)
        }),
{
}

/// Lines are cleaned one by one, and each is followed by a line feed.
pub proof fn law_lines_are_cleaned_one_by_one(ls: Seq<Seq<char>>)
    ensures
        glsl::clean_lines(ls) == glsl::joined_lines(
            ls.map_values(|line: Seq<char>| glsl::clean_line(line)),
        ),
    decreases ls.len(),
{
    let cleaned = ls.map_values(|line: Seq<char>| glsl::clean_line(line));
    if ls.len() > 0 {
        law_lines_are_cleaned_one_by_one(ls.skip(1));
        assert(cleaned.skip(1) =~= ls.skip(1).map_values(
            |line: Seq<char>| glsl::clean_line(line),
        ));
    }
}

} // verus!
