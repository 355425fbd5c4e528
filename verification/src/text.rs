//! Text as sequences of characters: searching, trimming, splitting into lines,
//! replacing, and writing numbers in decimal.

use vstd::prelude::*;

verus! {

/// Appends one character: `String::push` leaves the old text followed by it.
pub assume_specification[ String::push ](s: &mut String, c: char)
    ensures
        final(s)@ == old(s)@.push(c),
;

// ---------------------------------------------------------------------------
// Conversions
// ---------------------------------------------------------------------------
/// The characters of `s`.
pub fn chars_of(s: &str) -> (out: Vec<char>)
    ensures
        out@ == s@,
{
    let mut out: Vec<char> = Vec::new();
    for c in it: s.chars()
        invariant
            out@ == s@.take(it.index() as int),
            it.seq() == s@,
    {
        out.push(c);
    }
    assert(s@.take(s@.len() as int) =~= s@);
    out
}

/// The text made of `chars`.
pub fn string_of(chars: &[char]) -> (out: String)
    ensures
        out@ == chars@,
{
    let mut out = String::new();
    let mut i: usize = 0;
    while i < chars.len()
        invariant
            i <= chars@.len(),
            out@ == chars@.take(i as int),
        decreases chars@.len() - i,
    {
        out.push(chars[i]);
        i += 1;
        assert(chars@.take(i as int) =~= chars@.take(i - 1).push(chars@[i - 1]));
    }
    assert(chars@.take(i as int) =~= chars@);
    out
}


/// Appends `tail` to `out`.
pub fn push_chars(out: &mut Vec<char>, tail: &[char])
    ensures
        final(out)@ == old(out)@ + tail@,
{
    let ghost start = out@;
    let mut i: usize = 0;
    while i < tail.len()
        invariant
            i <= tail@.len(),
            out@ == start + tail@.take(i as int),
        decreases tail@.len() - i,
    {
        out.push(tail[i]);
        i += 1;
        assert(start + tail@.take(i as int) =~= (start + tail@.take(i - 1)).push(tail@[i - 1]));
    }
    assert(tail@.take(i as int) =~= tail@);
}

/// Appends the characters of `tail` to `out`.
pub fn push_text(out: &mut Vec<char>, tail: &str)
    ensures
        final(out)@ == old(out)@ + tail@,
{
    let chars = chars_of(tail);
    push_chars(out, chars.as_slice());
}

// ---------------------------------------------------------------------------
// Searching
// ---------------------------------------------------------------------------
/// `p` stands in `s` at index `i`.
pub open spec fn occurs_at(s: Seq<char>, p: Seq<char>, i: int) -> bool {
    0 <= i && i + p.len() <= s.len() && s.subrange(i, i + p.len()) == p
}

/// The first index from `i` on at which `p` stands in `s`.
pub open spec fn find_from(s: Seq<char>, p: Seq<char>, i: int) -> Option<int>
    decreases s.len() - i,
{
    if i + p.len() > s.len() || i < 0 {
        None
    } else if occurs_at(s, p, i) {
        Some(i)
    } else if i >= s.len() {
        None
    } else {
        find_from(s, p, i + 1)
    }
}

/// The first index at which `p` stands in `s`.
pub open spec fn find(s: Seq<char>, p: Seq<char>) -> Option<int> {
    find_from(s, p, 0)
}

/// The last index below `n` at which `p` stands in `s`.
pub open spec fn rfind_below(s: Seq<char>, p: Seq<char>, n: nat) -> Option<int>
    decreases n,
{
    if n == 0 {
        None
    } else if occurs_at(s, p, n - 1) {
        Some(n - 1)
    } else {
        rfind_below(s, p, (n - 1) as nat)
    }
}

/// The last index at which `p` stands in `s`.
pub open spec fn rfind(s: Seq<char>, p: Seq<char>) -> Option<int> {
    rfind_below(s, p, s.len() + 1)
}

/// `p` stands somewhere in `s`.
pub open spec fn contains_text(s: Seq<char>, p: Seq<char>) -> bool {
    exists|i: int| occurs_at(s, p, i)
}

/// `s` begins with `p`.
pub open spec fn starts_with(s: Seq<char>, p: Seq<char>) -> bool {
    occurs_at(s, p, 0)
}

/// [`find_from`] gives the least index not below `i` at which `p` stands, if any.
pub proof fn lemma_find_from(s: Seq<char>, p: Seq<char>, i: int)
    requires
        0 <= i,
    ensures
        match find_from(s, p, i) {
            Some(k) => i <= k && occurs_at(s, p, k) && forall|j: int|
                i <= j < k ==> !occurs_at(s, p, j),
            None => forall|j: int| i <= j ==> !occurs_at(s, p, j),
        },
    decreases s.len() - i,
{
    if i + p.len() > s.len() {
    } else if occurs_at(s, p, i) {
    } else if i >= s.len() {
    } else {
        lemma_find_from(s, p, i + 1);
    }
}

/// [`rfind_below`] gives the greatest index below `n` at which `p` stands, if any.
pub proof fn lemma_rfind_below(s: Seq<char>, p: Seq<char>, n: nat)
    ensures
        match rfind_below(s, p, n) {
            Some(k) => 0 <= k < n && occurs_at(s, p, k) && forall|j: int|
                k < j < n ==> !occurs_at(s, p, j),
            None => forall|j: int| j < n ==> !occurs_at(s, p, j),
        },
    decreases n,
{
    if n > 0 && !occurs_at(s, p, n - 1) {
        lemma_rfind_below(s, p, (n - 1) as nat);
    }
}

/// A text stands in another exactly where a search finds it.
pub proof fn lemma_find_is_contains(s: Seq<char>, p: Seq<char>)
    ensures
        contains_text(s, p) <==> find(s, p) is Some,
{
    lemma_find_from(s, p, 0);
}

/// Whether `p` stands in `s` at index `at`.
fn stands_at(s: &[char], p: &[char], at: usize) -> (found: bool)
    requires
        at <= s@.len(),
    ensures
        found == occurs_at(s@, p@, at as int),
{
    if p.len() > s.len() - at {
        return false;
    }
    let mut k: usize = 0;
    while k < p.len()
        invariant
            at + p@.len() <= s.len(),
            k <= p@.len(),
            forall|j: int| 0 <= j < k ==> s@[at + j] == p@[j],
        decreases p@.len() - k,
    {
        if s[at + k] != p[k] {
            assert(s@.subrange(at as int, at + p@.len())[k as int] != p@[k as int]);
            return false;
        }
        k += 1;
    }
    assert(s@.subrange(at as int, at + p@.len()) =~= p@);
    true
}

/// The first index at which `p` stands in `s`.
pub fn find_text(s: &[char], p: &str) -> (at: Option<usize>)
    ensures
        find(s@, p@) == (match at {
            Some(i) => Some(i as int),
            None => None,
        }),
        at matches Some(i) ==> occurs_at(s@, p@, i as int),
{
    let needle = chars_of(p);
    let mut i: usize = 0;
    while i < s.len()
        invariant
            needle@ == p@,
            i <= s@.len(),
            find(s@, p@) == find_from(s@, p@, i as int),
        decreases s@.len() - i,
    {
        if stands_at(s, needle.as_slice(), i) {
            return Some(i);
        }
        i += 1;
    }
    if stands_at(s, needle.as_slice(), i) {
        return Some(i);
    }
    None
}

/// The last index at which `p` stands in `s`.
pub fn rfind_text(s: &[char], p: &str) -> (at: Option<usize>)
    ensures
        rfind(s@, p@) == (match at {
            Some(i) => Some(i as int),
            None => None,
        }),
        at matches Some(i) ==> occurs_at(s@, p@, i as int),
{
    let needle = chars_of(p);
    if stands_at(s, needle.as_slice(), s.len()) {
        return Some(s.len());
    }
    let mut n: usize = s.len();
    while n > 0
        invariant
            needle@ == p@,
            n <= s@.len(),
            rfind(s@, p@) == rfind_below(s@, p@, n as nat),
        decreases n,
    {
        n -= 1;
        if stands_at(s, needle.as_slice(), n) {
            return Some(n);
        }
    }
    None
}

/// Whether `p` stands somewhere in `s`.
pub fn has_text(s: &[char], p: &str) -> (found: bool)
    ensures
        found == contains_text(s@, p@),
{
    proof {
        lemma_find_is_contains(s@, p@);
    }
    find_text(s, p).is_some()
}

/// Whether `s` begins with `p`.
pub fn has_prefix(s: &[char], p: &str) -> (found: bool)
    ensures
        found == starts_with(s@, p@),
{
    let needle = chars_of(p);
    stands_at(s, needle.as_slice(), 0)
}

/// Whether the character `c` stands in `s`.
pub fn has_char(s: &[char], c: char) -> (found: bool)
    ensures
        found == s@.contains(c),
{
    let mut i: usize = 0;
    while i < s.len()
        invariant
            i <= s@.len(),
            forall|j: int| 0 <= j < i ==> s@[j] != c,
        decreases s@.len() - i,
    {
        if s[i] == c {
            return true;
        }
        i += 1;
    }
    false
}

// ---------------------------------------------------------------------------
// Trimming
// ---------------------------------------------------------------------------
/// The characters of Unicode's `White_Space` property.
pub open spec fn is_white_space(c: char) -> bool {
    ||| 0x9 <= c as u32 <= 0xd
    ||| c as u32 == 0x20
    ||| c as u32 == 0x85
    ||| c as u32 == 0xa0
    ||| c as u32 == 0x1680
    ||| 0x2000 <= c as u32 <= 0x200a
    ||| c as u32 == 0x2028
    ||| c as u32 == 0x2029
    ||| c as u32 == 0x202f
    ||| c as u32 == 0x205f
    ||| c as u32 == 0x3000
}

/// `s` without its leading characters that satisfy `p`.
pub open spec fn trim_start_by(s: Seq<char>, p: spec_fn(char) -> bool) -> Seq<char>
    decreases s.len(),
{
    if s.len() > 0 && p(s[0]) {
        trim_start_by(s.skip(1), p)
    } else {
        s
    }
}

/// `s` without its leading white space.
pub open spec fn trim_start(s: Seq<char>) -> Seq<char> {
    trim_start_by(s, |c: char| is_white_space(c))
}

/// `s` without its trailing white space.
pub open spec fn trim_end(s: Seq<char>) -> Seq<char>
    decreases s.len(),
{
    if s.len() > 0 && is_white_space(s.last()) {
        trim_end(s.drop_last())
    } else {
        s
    }
}

/// `s` without its leading and trailing white space.
pub open spec fn trim(s: Seq<char>) -> Seq<char> {
    trim_end(trim_start(s))
}

/// Whether `c` is white space.
pub fn white_space(c: char) -> (yes: bool)
    ensures
        yes == is_white_space(c),
{
    let u: u32 = c as u32;
    (0x9 <= u && u <= 0xd) || u == 0x20 || u == 0x85 || u == 0xa0 || u == 0x1680 || (0x2000 <= u
        && u <= 0x200a) || u == 0x2028 || u == 0x2029 || u == 0x202f || u == 0x205f || u == 0x3000
}

/// How many leading characters of `s` are white space.
fn leading_white_space(s: &[char]) -> (n: usize)
    ensures
        n <= s@.len(),
        s@.skip(n as int) == trim_start(s@),
{
    let ghost p = |c: char| is_white_space(c);
    let mut i: usize = 0;
    assert(s@.skip(0) =~= s@);
    while i < s.len() && white_space(s[i])
        invariant
            p == (|c: char| is_white_space(c)),
            i <= s@.len(),
            trim_start(s@) == trim_start_by(s@.skip(i as int), p),
        decreases s@.len() - i,
    {
        assert(s@.skip(i as int).skip(1) =~= s@.skip(i + 1));
        i += 1;
    }
    i
}

/// `s` without its leading white space.
pub fn trimmed_start(s: &[char]) -> (out: &[char])
    ensures
        out@ == trim_start(s@),
        out@.len() <= s@.len(),
        out@ == s@.skip(s@.len() - out@.len()),
{
    let n = leading_white_space(s);
    let out = vstd::slice::slice_subrange(s, n, s.len());
    assert(out@ =~= s@.skip(n as int));
    out
}

/// `s` without its trailing white space.
pub fn trimmed_end(s: &[char]) -> (out: &[char])
    ensures
        out@ == trim_end(s@),
{
    let mut n: usize = s.len();
    assert(s@.take(n as int) =~= s@);
    while n > 0 && white_space(s[n - 1])
        invariant
            n <= s@.len(),
            trim_end(s@) == trim_end(s@.take(n as int)),
        decreases n,
    {
        assert(s@.take(n as int).drop_last() =~= s@.take(n - 1));
        n -= 1;
    }
    let out = vstd::slice::slice_subrange(s, 0, n);
    assert(out@ =~= s@.take(n as int));
    out
}

/// `s` without its leading and trailing white space.
pub fn trimmed(s: &[char]) -> (out: &[char])
    ensures
        out@ == trim(s@),
{
    trimmed_end(trimmed_start(s))
}

/// `s` without its leading line feeds.
pub fn without_leading_newlines(s: &[char]) -> (out: &[char])
    ensures
        out@ == trim_start_by(s@, |c: char| c == '\n'),
{
    let ghost p = |c: char| c == '\n';
    let mut i: usize = 0;
    assert(s@.skip(0) =~= s@);
    while i < s.len() && s[i] == '\n'
        invariant
            p == (|c: char| c == '\n'),
            i <= s@.len(),
            trim_start_by(s@, p) == trim_start_by(s@.skip(i as int), p),
        decreases s@.len() - i,
    {
        assert(s@.skip(i as int).skip(1) =~= s@.skip(i + 1));
        i += 1;
    }
    let out = vstd::slice::slice_subrange(s, i, s.len());
    assert(out@ =~= s@.skip(i as int));
    out
}

// ---------------------------------------------------------------------------
// Lines
// ---------------------------------------------------------------------------
/// The first index from `i` on that holds `c`, or the length where none does.
pub open spec fn index_or_len(s: Seq<char>, c: char, i: int) -> int
    decreases s.len() - i,
{
    if i < 0 || i >= s.len() {
        s.len() as int
    } else if s[i] == c {
        i
    } else {
        index_or_len(s, c, i + 1)
    }
}

/// A line's text without the carriage return of a `\r\n` ending.
pub open spec fn without_carriage_return(s: Seq<char>) -> Seq<char> {
    if s.len() > 0 && s.last() == '\r' {
        s.drop_last()
    } else {
        s
    }
}

/// The lines of `s`: each ends at a line feed, of which a directly preceding
/// carriage return is part; the last line may lack its ending.
pub open spec fn lines(s: Seq<char>) -> Seq<Seq<char>>
    decreases s.len(),
    via lines_decreases
{
    if s.len() == 0 {
        Seq::empty()
    } else {
        let n = index_or_len(s, '\n', 0);
        if n >= s.len() {
            seq![s]
        } else {
            seq![without_carriage_return(s.take(n))] + lines(s.skip(n + 1))
        }
    }
}

#[via_fn]
proof fn lines_decreases(s: Seq<char>) {
    lemma_index_or_len(s, '\n', 0);
}

/// [`index_or_len`] gives the least index not below `i` that holds `c`.
pub proof fn lemma_index_or_len(s: Seq<char>, c: char, i: int)
    requires
        0 <= i <= s.len(),
    ensures
        i <= index_or_len(s, c, i) <= s.len(),
        index_or_len(s, c, i) < s.len() ==> s[index_or_len(s, c, i)] == c,
        forall|j: int| i <= j < index_or_len(s, c, i) ==> s[j] != c,
    decreases s.len() - i,
{
    if i < s.len() && s[i] != c {
        lemma_index_or_len(s, c, i + 1);
    }
}

/// The first index of `s` that holds `c`, or the length where none does.
pub fn char_or_len(s: &[char], c: char) -> (n: usize)
    ensures
        n == index_or_len(s@, c, 0),
        n <= s@.len(),
{
    let mut i: usize = 0;
    while i < s.len() && s[i] != c
        invariant
            i <= s@.len(),
            index_or_len(s@, c, 0) == index_or_len(s@, c, i as int),
        decreases s@.len() - i,
    {
        i += 1;
    }
    i
}

/// The texts that a vector of lines holds.
pub open spec fn texts(v: Seq<Vec<char>>) -> Seq<Seq<char>> {
    v.map_values(|x: Vec<char>| x@)
}

/// The lines of `s`.
pub fn split_lines(s: &[char]) -> (out: Vec<Vec<char>>)
    ensures
        texts(out@) == lines(s@),
{
    let mut out: Vec<Vec<char>> = Vec::new();
    let mut rest: &[char] = s;
    assert(texts(out@) + lines(rest@) =~= lines(s@));
    while rest.len() > 0
        invariant
            texts(out@) + lines(rest@) == lines(s@),
        decreases rest@.len(),
    {
        let ghost before = out@;
        let ghost rest0 = rest@;
        let n = char_or_len(rest, '\n');
        let mut line: Vec<char> = Vec::new();
        if n == rest.len() {
            push_chars(&mut line, rest);
            rest = vstd::slice::slice_subrange(rest, n, n);
            assert(line@ == rest0);
            assert(lines(rest0) == seq![rest0]);
        } else {
            let mut end: usize = n;
            if n > 0 && rest[n - 1] == '\r' {
                end = n - 1;
            }
            push_chars(&mut line, vstd::slice::slice_subrange(rest, 0, end));
            rest = vstd::slice::slice_subrange(rest, n + 1, rest.len());
            assert(line@ =~= without_carriage_return(rest0.take(n as int)));
            assert(rest@ =~= rest0.skip(n + 1));
            assert(lines(rest0) == seq![line@] + lines(rest@));
        }
        out.push(line);
        assert(texts(out@) =~= texts(before).push(out@.last()@));
        assert(texts(out@) + lines(rest@) =~= texts(before) + lines(rest0));
    }
    assert(texts(out@) + lines(rest@) =~= texts(out@));
    out
}

// ---------------------------------------------------------------------------
// Replacing
// ---------------------------------------------------------------------------
/// `s` with every occurrence of `from`, taken from the left without overlap,
/// replaced by `to`.
pub open spec fn replace(s: Seq<char>, from: Seq<char>, to: Seq<char>) -> Seq<char>
    decreases s.len(),
{
    if s.len() == 0 || from.len() == 0 {
        s
    } else if starts_with(s, from) {
        to + replace(s.skip(from.len() as int), from, to)
    } else {
        seq![s[0]] + replace(s.skip(1), from, to)
    }
}

/// `s` with every occurrence of `from` replaced by `to`.
pub fn replaced(s: &[char], from: &str, to: &str) -> (out: Vec<char>)
    requires
        from@.len() > 0,
    ensures
        out@ == replace(s@, from@, to@),
{
    let needle = chars_of(from);
    let mut out: Vec<char> = Vec::new();
    let mut i: usize = 0;
    assert(s@.skip(0) =~= s@);
    assert(out@ + replace(s@.skip(0), from@, to@) =~= replace(s@, from@, to@));
    while i < s.len()
        invariant
            needle@ == from@,
            from@.len() > 0,
            i <= s@.len(),
            out@ + replace(s@.skip(i as int), from@, to@) == replace(s@, from@, to@),
        decreases s@.len() - i,
    {
        let ghost rest = s@.skip(i as int);
        let ghost before = out@;
        if stands_at(s, needle.as_slice(), i) {
            assert(rest.subrange(0, from@.len() as int) =~= s@.subrange(
                i as int,
                i + from@.len(),
            ));
            push_text(&mut out, to);
            i += needle.len();
            assert(s@.skip(i as int) =~= rest.skip(from@.len() as int));
            assert(out@ + replace(s@.skip(i as int), from@, to@) =~= before + (to@ + replace(
                rest.skip(from@.len() as int),
                from@,
                to@,
            )));
        } else {
            proof {
                if starts_with(rest, from@) {
                    assert(rest.subrange(0, from@.len() as int) =~= s@.subrange(
                        i as int,
                        i + from@.len(),
                    ));
                }
            }
            out.push(s[i]);
            i += 1;
            assert(s@.skip(i as int) =~= rest.skip(1));
            assert(out@ + replace(s@.skip(i as int), from@, to@) =~= before + (seq![rest[0]]
                + replace(rest.skip(1), from@, to@)));
        }
    }
    assert(out@ + replace(s@.skip(i as int), from@, to@) =~= out@);
    out
}

// ---------------------------------------------------------------------------
// Decimal numbers
// ---------------------------------------------------------------------------
/// The decimal digit of `d`.
pub open spec fn digit(d: nat) -> char {
    if d == 0 { '0' }
    else if d == 1 { '1' }
    else if d == 2 { '2' }
    else if d == 3 { '3' }
    else if d == 4 { '4' }
    else if d == 5 { '5' }
    else if d == 6 { '6' }
    else if d == 7 { '7' }
    else if d == 8 { '8' }
    else { '9' }
}

/// `n` in decimal, without leading zeros.
pub open spec fn decimal(n: nat) -> Seq<char>
    decreases n,
{
    if n < 10 {
        seq![digit(n)]
    } else {
        decimal(n / 10).push(digit(n % 10))
    }
}

fn digit_char(d: u128) -> (c: char)
    requires
        d < 10,
    ensures
        c == digit(d as nat),
{
    match d {
        0 => '0',
        1 => '1',
        2 => '2',
        3 => '3',
        4 => '4',
        5 => '5',
        6 => '6',
        7 => '7',
        8 => '8',
        _ => '9',
    }
}

/// `n` in decimal.
pub fn decimal_text(n: u128) -> (out: String)
    ensures
        out@ == decimal(n as nat),
    decreases n,
{
    if n < 10 {
        let mut out = String::new();
        out.push(digit_char(n));
        assert(out@ =~= seq![digit(n as nat)]);
        out
    } else {
        let mut out = decimal_text(n / 10);
        out.push(digit_char(n % 10));
        out
    }
}

/// The decimal form of an integer, with a leading `-` where it is negative.
pub open spec fn signed_decimal(n: int) -> Seq<char> {
    if n < 0 {
        seq!['-'] + decimal((-n) as nat)
    } else {
        decimal(n as nat)
    }
}

/// `n` in decimal.
pub fn signed_decimal_text(n: i32) -> (out: String)
    ensures
        out@ == signed_decimal(n as int),
{
    if n < 0 {
        let mut out = String::new();
        out.push('-');
        let magnitude: i64 = -(n as i64);
        out.append(decimal_text(magnitude as u128).as_str());
        assert(out@ =~= seq!['-'] + decimal((-n) as nat));
        out
    } else {
        decimal_text(n as u128)
    }
}

/// The decimal form of a number is made of digits.
pub proof fn lemma_decimal_digits(n: nat)
    ensures
        decimal(n).len() > 0,
        forall|i: int| 0 <= i < decimal(n).len() ==> '0' <= #[trigger] decimal(n)[i] <= '9',
    decreases n,
{
    if n >= 10 {
        lemma_decimal_digits(n / 10);
    }
}

/// `10` to the power of `k`.
pub open spec fn power_of_ten(k: nat) -> nat
    decreases k,
{
    if k == 0 {
        1
    } else {
        10 * power_of_ten((k - 1) as nat)
    }
}

/// A number below `10` to the power of `k` has at most `k` digits.
pub proof fn lemma_decimal_len(n: nat, k: nat)
    requires
        n < power_of_ten(k),
        k > 0,
    ensures
        decimal(n).len() <= k,
    decreases k,
{
    if n >= 10 {
        if k == 1 {
            reveal_with_fuel(power_of_ten, 2);
        } else {
            lemma_decimal_len(n / 10, (k - 1) as nat);
        }
    }
}

/// Trimming takes characters off the front, and only such as satisfy `p`.
pub proof fn lemma_trim_start_by(s: Seq<char>, p: spec_fn(char) -> bool)
    ensures
        trim_start_by(s, p).len() <= s.len(),
        trim_start_by(s, p) == s.skip(s.len() - trim_start_by(s, p).len()),
        forall|i: int| 0 <= i < s.len() - trim_start_by(s, p).len() ==> p(#[trigger] s[i]),
        trim_start_by(s, p).len() > 0 ==> !p(trim_start_by(s, p)[0]),
    decreases s.len(),
{
    if s.len() > 0 && p(s[0]) {
        let t = s.skip(1);
        lemma_trim_start_by(t, p);
        let k = t.len() - trim_start_by(t, p).len();
        assert(t.skip(k) =~= s.skip(k + 1));
        assert forall|i: int| 0 <= i < k + 1 implies p(#[trigger] s[i]) by {
            if i > 0 {
                assert(s[i] == t[i - 1]);
            }
        }
    } else {
        assert(s.skip(0) =~= s);
    }
}

/// Trimming `a + b` leaves `b` where `a` is all trimmed and `b` begins with a
/// character that stays.
pub proof fn lemma_trim_start_by_concat(a: Seq<char>, b: Seq<char>, p: spec_fn(char) -> bool)
    requires
        forall|i: int| 0 <= i < a.len() ==> p(#[trigger] a[i]),
        b.len() > 0,
        !p(b[0]),
    ensures
        trim_start_by(a + b, p) == b,
    decreases a.len(),
{
    if a.len() == 0 {
        assert(a + b =~= b);
    } else {
        assert((a + b)[0] == a[0]);
        assert((a + b).skip(1) =~= a.skip(1) + b);
        lemma_trim_start_by_concat(a.skip(1), b, p);
    }
}

/// Trimming takes characters off the end.
pub proof fn lemma_trim_end(s: Seq<char>)
    ensures
        trim_end(s).len() <= s.len(),
        trim_end(s) == s.take(trim_end(s).len() as int),
    decreases s.len(),
{
    if s.len() > 0 && is_white_space(s.last()) {
        lemma_trim_end(s.drop_last());
        assert(s.drop_last().take(trim_end(s).len() as int) =~= s.take(trim_end(s).len() as int));
    } else {
        assert(s.take(s.len() as int) =~= s);
    }
}

/// What trimming takes off the end is white space, and it stops at what is not.
pub proof fn lemma_trim_end_blank(s: Seq<char>)
    ensures
        trim_end(s).len() <= s.len(),
        trim_end(s) == s.take(trim_end(s).len() as int),
        forall|i: int|
            0 <= i < s.skip(trim_end(s).len() as int).len() ==> is_white_space(
                #[trigger] s.skip(trim_end(s).len() as int)[i],
            ),
        trim_end(s).len() > 0 ==> !is_white_space(trim_end(s).last()),
    decreases s.len(),
{
    lemma_trim_end(s);
    if s.len() > 0 && is_white_space(s.last()) {
        let t = s.drop_last();
        lemma_trim_end_blank(t);
        let k = trim_end(s).len() as int;
        assert forall|i: int| 0 <= i < s.skip(k).len() implies is_white_space(
            #[trigger] s.skip(k)[i],
        ) by {
            if i < t.skip(k).len() {
                assert(t.skip(k)[i] == s.skip(k)[i]);
            }
        }
    }
}

/// Trimming adds no character.
pub proof fn lemma_trim_subset(s: Seq<char>)
    ensures
        forall|i: int| 0 <= i < trim(s).len() ==> s.contains(#[trigger] trim(s)[i]),
{
    let p = |c: char| is_white_space(c);
    lemma_trim_start_by(s, p);
    let t = trim_start(s);
    lemma_trim_end(t);
    assert forall|i: int| 0 <= i < trim(s).len() implies s.contains(#[trigger] trim(s)[i]) by {
        assert(trim(s)[i] == t[i]);
        assert(t[i] == s[s.len() - t.len() + i]);
    }
}

// ---------------------------------------------------------------------------
// Laws
// ---------------------------------------------------------------------------
/// A text stands at an index exactly where the whole is what comes before it, the
/// text, and something behind it.
pub proof fn law_text_stands_between(before: Seq<char>, p: Seq<char>, behind: Seq<char>, s: Seq<char>)
    ensures
        occurs_at(before + p + behind, p, before.len() as int),
        contains_text(before + p + behind, p),
        starts_with(p + behind, p),
        contains_text(s, p) ==> exists|k: int|
            0 <= k && k + p.len() <= s.len() && #[trigger] s.take(k) + p + s.skip(k + p.len()) == s,
        starts_with(s, p) ==> p.len() <= s.len() && p + s.skip(p.len() as int) == s,
{
    let whole = before + p + behind;
    assert(whole.subrange(before.len() as int, before.len() as int + p.len()) =~= p);
    assert((p + behind).subrange(0, p.len() as int) =~= p);
    if contains_text(s, p) {
        let k = choose|k: int| occurs_at(s, p, k);
        assert(s.take(k) + s.subrange(k, k + p.len()) + s.skip(k + p.len()) =~= s);
    }
    if starts_with(s, p) {
        assert(s.subrange(0, p.len() as int) + s.skip(p.len() as int) =~= s);
    }
}

/// A search finds the first place where the text stands, and a search from the
/// end the last one; both find it exactly where it stands somewhere.
pub proof fn law_search_finds_the_first_and_the_last(s: Seq<char>, p: Seq<char>, i: int)
    requires
        0 <= i,
        i + p.len() <= s.len(),
        s.subrange(i, i + p.len()) == p,
    ensures
        find(s, p) matches Some(k) && k <= i && s.subrange(k, k + p.len()) == p,
        rfind(s, p) matches Some(k) && i <= k && k + p.len() <= s.len() && s.subrange(
            k,
            k + p.len(),
        ) == p,
{
    lemma_find_from(s, p, 0);
    lemma_rfind_below(s, p, s.len() + 1);
    assert(occurs_at(s, p, i));
}

/// A search finds nothing exactly where the text stands nowhere.
pub proof fn law_search_finds_nothing_else(s: Seq<char>, p: Seq<char>)
    ensures
        find(s, p) is None <==> forall|i: int|
            0 <= i && i + p.len() <= s.len() ==> #[trigger] s.subrange(i, i + p.len()) != p,
        rfind(s, p) is None <==> forall|i: int|
            0 <= i && i + p.len() <= s.len() ==> #[trigger] s.subrange(i, i + p.len()) != p,
{
    lemma_find_from(s, p, 0);
    lemma_rfind_below(s, p, s.len() + 1);
    if find(s, p) is None {
        assert forall|i: int| 0 <= i && i + p.len() <= s.len() implies #[trigger] s.subrange(
            i,
            i + p.len(),
        ) != p by {
            assert(!occurs_at(s, p, i));
        }
    }
    if rfind(s, p) is None {
        assert forall|i: int| 0 <= i && i + p.len() <= s.len() implies #[trigger] s.subrange(
            i,
            i + p.len(),
        ) != p by {
            assert(!occurs_at(s, p, i));
        }
    }
}

/// White space is what Unicode calls so: the five controls from the tabulator to
/// the carriage return, the space, the next line, the spaces that do not break,
/// and the wide and narrow spaces and separators of the general punctuation.
pub proof fn law_white_space_characters(c: char)
    ensures
        is_white_space(c) <==> ({
            let u = c as int;
            ||| u == 9 || u == 10 || u == 11 || u == 12 || u == 13
            ||| u == 32 || u == 133 || u == 160 || u == 5760
            ||| 8192 <= u <= 8202
            ||| u == 8232 || u == 8233 || u == 8239 || u == 8287 || u == 12288
        }),
{
}

/// Trimming takes the white space off both ends and nothing else: what stands
/// between two runs of white space, and itself begins and ends with something
/// else, is what is left.
pub proof fn law_trim_leaves_the_middle(before: Seq<char>, middle: Seq<char>, behind: Seq<char>)
    requires
        forall|i: int| 0 <= i < before.len() ==> is_white_space(#[trigger] before[i]),
        forall|i: int| 0 <= i < behind.len() ==> is_white_space(#[trigger] behind[i]),
        middle.len() > 0,
        !is_white_space(middle[0]),
        !is_white_space(middle.last()),
    ensures
        trim(before + middle + behind) == middle,
        trim_start(before + middle + behind) == middle + behind,
        trim_end(before + middle + behind) == before + middle,
{
    let p = |c: char| is_white_space(c);
    let rest = middle + behind;
    assert(before + middle + behind =~= before + rest);
    assert forall|i: int| 0 <= i < before.len() implies p(#[trigger] before[i]) by {}
    lemma_trim_start_by_concat(before, rest, p);
    lemma_trim_end_concat(middle, behind);
    lemma_trim_end_concat(before + middle, behind);
}

/// Nothing is left of a text that is all white space.
pub proof fn law_trim_of_white_space(s: Seq<char>)
    requires
        forall|i: int| 0 <= i < s.len() ==> is_white_space(#[trigger] s[i]),
    ensures
        trim(s).len() == 0,
        trim_start(s).len() == 0,
        trim_end(s).len() == 0,
    decreases s.len(),
{
    let p = |c: char| is_white_space(c);
    lemma_trim_start_by(s, p);
    let t = trim_start(s);
    if t.len() > 0 {
        assert(t[0] == s[s.len() - t.len()]);
        assert(!p(t[0]));
    }
    if s.len() > 0 {
        law_trim_of_white_space(s.drop_last());
    }
}

/// White space at the end of a text that ends otherwise before it is all that is
/// trimmed.
proof fn lemma_trim_end_concat(a: Seq<char>, b: Seq<char>)
    requires
        forall|i: int| 0 <= i < b.len() ==> is_white_space(#[trigger] b[i]),
        a.len() > 0,
        !is_white_space(a.last()),
    ensures
        trim_end(a + b) == a,
    decreases b.len(),
{
    if b.len() == 0 {
        assert(a + b =~= a);
    } else {
        assert((a + b).last() == b.last());
        assert((a + b).drop_last() =~= a + b.drop_last());
        lemma_trim_end_concat(a, b.drop_last());
    }
}

/// A text's first line is what stands before its first line feed, without a
/// carriage return directly before that, and its other lines are those of what
/// follows; a text without a line feed is one line, and an empty one none.
pub proof fn law_lines_end_at_line_feeds(first: Seq<char>, rest: Seq<char>)
    requires
        !first.contains('\n'),
    ensures
        lines(first + seq!['\n'] + rest) == seq![
            (if first.len() > 0 && first.last() == '\r' {
                first.take(first.len() - 1)
            } else {
                first
            }),
        ] + lines(rest),
        first.len() > 0 ==> lines(first) == seq![first],
        first.len() == 0 ==> lines(first).len() == 0,
{
    let s = first + seq!['\n'] + rest;
    let k = first.len() as int;
    lemma_index_or_len(s, '\n', 0);
    let n = index_or_len(s, '\n', 0);
    assert(s[k] == '\n');
    if n < k {
        assert(s[n] == first[n]);
    }
    assert(s.take(k) =~= first);
    assert(s.skip(k + 1) =~= rest);
    if first.len() > 0 {
        assert(first.drop_last() =~= first.take(first.len() - 1));
    }
    lemma_index_or_len(first, '\n', 0);
    let m = index_or_len(first, '\n', 0);
    if m < first.len() {
        assert(first[m] == '\n');
    }
}

/// Replacing leaves a text as it is in which there is nothing to replace.
pub proof fn lemma_nothing_to_replace(s: Seq<char>, from: Seq<char>, to: Seq<char>)
    requires
        from.len() > 0,
        !contains_text(s, from),
    ensures
        replace(s, from, to) == s,
    decreases s.len(),
{
    if s.len() > 0 {
        let tail = s.skip(1);
        assert(!occurs_at(s, from, 0));
        assert forall|i: int| !#[trigger] occurs_at(tail, from, i) by {
            if occurs_at(tail, from, i) {
                assert(s.subrange(i + 1, i + 1 + from.len()) =~= tail.subrange(i, i + from.len()));
                assert(occurs_at(s, from, i + 1));
            }
        }
        lemma_nothing_to_replace(tail, from, to);
        assert(seq![s[0]] + tail =~= s);
    }
}

/// Replacing begins with the first place where the replaced text stands.
#[verifier::spinoff_prover]
proof fn lemma_first_place_is_replaced(
    before: Seq<char>,
    from: Seq<char>,
    to: Seq<char>,
    behind: Seq<char>,
)
    requires
        from.len() > 0,
        forall|i: int|
            0 <= i < before.len() ==> !#[trigger] occurs_at(before + from + behind, from, i),
    ensures
        replace(before + from + behind, from, to) == before + to + replace(behind, from, to),
    decreases before.len(),
{
    let s = before + from + behind;
    if before.len() == 0 {
        assert(s.subrange(0, from.len() as int) =~= from);
        assert(s.skip(from.len() as int) =~= behind);
        assert(before + to + replace(behind, from, to) =~= to + replace(behind, from, to));
    } else {
        let tail = before.skip(1);
        let t = tail + from + behind;
        assert(s.skip(1) =~= t);
        assert(!occurs_at(s, from, 0));
        assert forall|i: int| 0 <= i < tail.len() implies !#[trigger] occurs_at(t, from, i) by {
            if occurs_at(t, from, i) {
                assert(s.subrange(i + 1, i + 1 + from.len()) =~= t.subrange(i, i + from.len()));
                assert(occurs_at(s, from, i + 1));
            }
        }
        lemma_first_place_is_replaced(tail, from, to, behind);
        let rest = replace(behind, from, to);
        assert(s[0] == before[0]);
        assert(seq![s[0]] + (tail + to + rest) =~= before + to + rest);
    }
}

/// Replacing goes from left to right: the first place where the replaced text
/// stands becomes the replacement, what comes before it stays as it is, and what
/// comes behind it is treated likewise; where it stands nowhere, all stays.
pub proof fn law_replacing_goes_from_the_left(
    before: Seq<char>,
    from: Seq<char>,
    to: Seq<char>,
    behind: Seq<char>,
)
    requires
        from.len() > 0,
    ensures
        (forall|i: int|
            0 <= i < before.len() ==> !#[trigger] occurs_at(before + from + behind, from, i))
            ==> replace(before + from + behind, from, to) == before + to + replace(behind, from, to),
        !contains_text(before, from) ==> replace(before, from, to) == before,
{
    if forall|i: int|
        0 <= i < before.len() ==> !#[trigger] occurs_at(before + from + behind, from, i) {
        lemma_first_place_is_replaced(before, from, to, behind);
    }
    if !contains_text(before, from) {
        lemma_nothing_to_replace(before, from, to);
    }
}

/// The number that a row of decimal digits stands for.
pub open spec fn number_of(s: Seq<char>) -> int
    decreases s.len(),
{
    if s.len() == 0 {
        0
    } else {
        10 * number_of(s.drop_last()) + (s.last() as int - '0' as int)
    }
}

/// The decimal form of a number reads back as the number, is made of digits, and
/// begins with no zero but that of the number zero.
pub proof fn law_decimal_reads_back(n: nat)
    ensures
        number_of(decimal(n)) == n,
        decimal(n).len() > 0,
        forall|i: int| 0 <= i < decimal(n).len() ==> '0' <= #[trigger] decimal(n)[i] <= '9',
        n > 0 ==> decimal(n)[0] != '0',
        n < 10 ==> decimal(n).len() == 1,
    decreases n,
{
    lemma_decimal_digits(n);
    reveal_with_fuel(number_of, 2);
    if n >= 10 {
        law_decimal_reads_back(n / 10);
        assert(decimal(n).drop_last() =~= decimal(n / 10));
        assert(decimal(n)[0] == decimal(n / 10)[0]);
    } else {
        assert(decimal(n).drop_last() =~= Seq::<char>::empty());
    }
}

/// A negative number is written as a minus sign and the decimal form of the
/// number without its sign.
pub proof fn law_sign_is_written_in_front(n: nat)
    ensures
        signed_decimal(n as int) == decimal(n),
        n > 0 ==> signed_decimal(-(n as int)) == seq!['-'] + decimal(n),
{
}

/// A vector of lines is seen line by line.
pub proof fn law_lines_as_they_are(v: Seq<Vec<char>>, i: int)
    requires
        0 <= i < v.len(),
    ensures
        texts(v).len() == v.len(),
        texts(v)[i] == v[i]@,
{
}

} // verus!
