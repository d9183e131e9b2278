//! Text primitives: what a string is cut into, compared with and built from.
//!
//! Everything here is stated over sequences of characters. Parsers turn their
//! input into characters once and then work on slices of it.

use vstd::prelude::*;
use vstd::slice::slice_subrange;

verus! {

broadcast use vstd::string::group_string_axioms;

// ---- characters and slices ----

/// The Unicode `White_Space` property.
pub open spec fn is_space(c: char) -> bool {
    ||| '\u{9}' <= c <= '\u{d}'
    ||| c == ' '
    ||| c == '\u{85}'
    ||| c == '\u{a0}'
    ||| c == '\u{1680}'
    ||| '\u{2000}' <= c <= '\u{200a}'
    ||| c == '\u{2028}'
    ||| c == '\u{2029}'
    ||| c == '\u{202f}'
    ||| c == '\u{205f}'
    ||| c == '\u{3000}'
}

/// Whether `c` is white space.
pub fn space(c: char) -> (r: bool)
    ensures
        r == is_space(c),
{
    ('\u{9}' <= c && c <= '\u{d}') || c == ' ' || c == '\u{85}' || c == '\u{a0}' || c == '\u{1680}'
        || ('\u{2000}' <= c && c <= '\u{200a}') || c == '\u{2028}' || c == '\u{2029}' || c
        == '\u{202f}' || c == '\u{205f}' || c == '\u{3000}'
}

/// The characters of a string.
pub fn chars_of(s: &str) -> (r: Vec<char>)
    ensures
        r@ == s@,
{
    let mut r: Vec<char> = Vec::new();
    for c in it: s.chars()
        invariant
            r@ == it.seq().take(it.index()),
            it.seq() == s@,
    {
        r.push(c);
    }
    r
}

/// `String::push` appends one character.
pub assume_specification[ String::push ](s: &mut String, c: char)
    ensures
        final(s)@ == old(s)@.push(c),
;

/// The string with these characters.
pub fn string_of(s: &[char]) -> (r: String)
    ensures
        r@ == s@,
{
    let mut r: String = String::new();
    let mut i: usize = 0;
    while i < s.len()
        invariant
            i <= s@.len(),
            r@ == s@.take(i as int),
        decreases s@.len() - i,
    {
        r.push(s[i]);
        i += 1;
        assert(s@.take(i as int) == s@.take(i - 1).push(s@[i - 1]));
    }
    assert(s@.take(i as int) == s@);
    r
}


/// Whether `s` spells `lit`.
pub fn text_is(s: &[char], lit: &str) -> (r: bool)
    ensures
        r == (s@ == lit@),
{
    let l = chars_of(lit);
    same(s, l.as_slice())
}

/// Whether two slices hold the same characters.
pub fn same(a: &[char], b: &[char]) -> (r: bool)
    ensures
        r == (a@ == b@),
{
    if a.len() != b.len() {
        return false;
    }
    let mut i: usize = 0;
    while i < a.len()
        invariant
            i <= a@.len(),
            a@.len() == b@.len(),
            forall|j: int| 0 <= j < i ==> a@[j] == b@[j],
        decreases a@.len() - i,
    {
        if a[i] != b[i] {
            return false;
        }
        i += 1;
    }
    assert(a@ =~= b@);
    true
}

/// Whether two strings hold the same characters.
pub fn str_eq(a: &str, b: &str) -> (r: bool)
    ensures
        r == (a@ == b@),
{
    let x = chars_of(a);
    text_is(x.as_slice(), b)
}

// ---- prefixes and suffixes ----

/// `s` begins with `p`.
pub open spec fn starts_with(s: Seq<char>, p: Seq<char>) -> bool {
    p.len() <= s.len() && s.take(p.len() as int) == p
}

/// `s` ends with `p`.
pub open spec fn ends_with(s: Seq<char>, p: Seq<char>) -> bool {
    p.len() <= s.len() && s.skip(s.len() - p.len()) == p
}

/// What follows the prefix `p`, when `s` begins with it.
pub open spec fn after_prefix(s: Seq<char>, p: Seq<char>) -> Option<Seq<char>> {
    if starts_with(s, p) {
        Some(s.skip(p.len() as int))
    } else {
        None
    }
}

/// What precedes the suffix `p`, when `s` ends with it.
pub open spec fn before_suffix(s: Seq<char>, p: Seq<char>) -> Option<Seq<char>> {
    if ends_with(s, p) {
        Some(s.take(s.len() - p.len()))
    } else {
        None
    }
}

/// An optional slice as an optional sequence.
pub open spec fn slice_view(o: Option<&[char]>) -> Option<Seq<char>> {
    match o {
        Some(s) => Some(s@),
        None => None,
    }
}

/// What follows `lit`, when `s` begins with it.
pub fn strip_prefix<'a>(s: &'a [char], lit: &str) -> (r: Option<&'a [char]>)
    ensures
        slice_view(r) == after_prefix(s@, lit@),
{
    let p = chars_of(lit);
    if p.len() > s.len() {
        return None;
    }
    let head = slice_subrange(s, 0, p.len());
    assert(head@ == s@.take(p@.len() as int));
    if same(head, p.as_slice()) {
        let rest = slice_subrange(s, p.len(), s.len());
        assert(rest@ == s@.skip(p@.len() as int));
        Some(rest)
    } else {
        None
    }
}

/// What precedes `lit`, when `s` ends with it.
pub fn strip_suffix<'a>(s: &'a [char], lit: &str) -> (r: Option<&'a [char]>)
    ensures
        slice_view(r) == before_suffix(s@, lit@),
{
    let p = chars_of(lit);
    if p.len() > s.len() {
        return None;
    }
    let cut: usize = s.len() - p.len();
    let tail = slice_subrange(s, cut, s.len());
    assert(tail@ == s@.skip(cut as int));
    if same(tail, p.as_slice()) {
        let rest = slice_subrange(s, 0, cut);
        assert(rest@ == s@.take(cut as int));
        Some(rest)
    } else {
        None
    }
}

/// Whether `s` begins with `lit`.
pub fn has_prefix(s: &[char], lit: &str) -> (r: bool)
    ensures
        r == starts_with(s@, lit@),
{
    strip_prefix(s, lit).is_some()
}

// ---- trimming ----

/// `s` without its leading white space.
pub open spec fn trim_start(s: Seq<char>) -> Seq<char>
    decreases s.len(),
{
    if s.len() > 0 && is_space(s[0]) {
        trim_start(s.skip(1))
    } else {
        s
    }
}

/// `s` without its trailing white space.
pub open spec fn trim_end(s: Seq<char>) -> Seq<char>
    decreases s.len(),
{
    if s.len() > 0 && is_space(s.last()) {
        trim_end(s.drop_last())
    } else {
        s
    }
}

/// `s` without white space at either end.
pub open spec fn trim(s: Seq<char>) -> Seq<char> {
    trim_end(trim_start(s))
}

/// Drops leading white space.
pub fn trim_left<'a>(s: &'a [char]) -> (r: &'a [char])
    ensures
        r@ == trim_start(s@),
{
    let mut i: usize = 0;
    assert(s@.skip(0) == s@);
    while i < s.len() && space(s[i])
        invariant
            i <= s@.len(),
            trim_start(s@) == trim_start(s@.skip(i as int)),
        decreases s@.len() - i,
    {
        assert(s@.skip(i as int).skip(1) == s@.skip(i + 1));
        i += 1;
    }
    let r = slice_subrange(s, i, s.len());
    assert(r@ == s@.skip(i as int));
    r
}

/// Drops trailing white space.
pub fn trim_right<'a>(s: &'a [char]) -> (r: &'a [char])
    ensures
        r@ == trim_end(s@),
{
    let mut n: usize = s.len();
    assert(s@.take(n as int) == s@);
    while n > 0 && space(s[n - 1])
        invariant
            n <= s@.len(),
            trim_end(s@) == trim_end(s@.take(n as int)),
        decreases n,
    {
        assert(s@.take(n as int).drop_last() == s@.take(n - 1));
        n -= 1;
    }
    let r = slice_subrange(s, 0, n);
    assert(r@ == s@.take(n as int));
    r
}

/// Drops white space at both ends.
pub fn trimmed<'a>(s: &'a [char]) -> (r: &'a [char])
    ensures
        r@ == trim(s@),
{
    trim_right(trim_left(s))
}

// ---- searching ----

/// `p` stands in `s` from position `i` on.
pub open spec fn occurs_at(s: Seq<char>, i: int, p: Seq<char>) -> bool {
    0 <= i && i + p.len() <= s.len() && s.subrange(i, i + p.len()) == p
}

/// `p` stands somewhere in `s`.
pub open spec fn contains(s: Seq<char>, p: Seq<char>) -> bool {
    exists|i: int| occurs_at(s, i, p)
}

/// `i` is the first position at which `p` stands in `s`.
pub open spec fn first_occurs_at(s: Seq<char>, i: int, p: Seq<char>) -> bool {
    occurs_at(s, i, p) && forall|j: int| 0 <= j < i ==> !occurs_at(s, j, p)
}

/// What precedes and what follows the first `p` in `s`.
pub open spec fn split_at_first(s: Seq<char>, p: Seq<char>) -> Option<(Seq<char>, Seq<char>)> {
    if contains(s, p) {
        let i = choose|i: int| first_occurs_at(s, i, p);
        Some((s.take(i), s.skip(i + p.len())))
    } else {
        None
    }
}

/// The first position of `lit` in `s`.
pub fn find(s: &[char], lit: &str) -> (r: Option<usize>)
    ensures
        r is Some <==> contains(s@, lit@),
        r matches Some(i) ==> first_occurs_at(s@, i as int, lit@),
{
    let p = chars_of(lit);
    if p.len() > s.len() {
        return None;
    }
    let total: usize = s.len();
    let last: usize = total - p.len();
    let mut i: usize = 0;
    loop
        invariant
            i <= last,
            total == s@.len(),
            last == s@.len() - p@.len(),
            p@ == lit@,
            forall|j: int| 0 <= j < i ==> !occurs_at(s@, j, lit@),
        decreases last - i,
    {
        let w = slice_subrange(s, i, i + p.len());
        if same(w, p.as_slice()) {
            assert(occurs_at(s@, i as int, lit@));
            return Some(i);
        }
        assert(!occurs_at(s@, i as int, lit@));
        if i == last {
            return None;
        }
        i += 1;
    }
}

/// Whether `lit` stands somewhere in `s`.
pub fn has(s: &[char], lit: &str) -> (r: bool)
    ensures
        r == contains(s@, lit@),
{
    find(s, lit).is_some()
}


/// A pair of slices as a pair of sequences.
pub open spec fn pair_view(o: Option<(&[char], &[char])>) -> Option<(Seq<char>, Seq<char>)> {
    match o {
        Some((a, b)) => Some((a@, b@)),
        None => None,
    }
}

/// Cuts `s` around the first `lit` in it.
pub fn split_once<'a>(s: &'a [char], lit: &str) -> (r: Option<(&'a [char], &'a [char])>)
    ensures
        pair_view(r) == split_at_first(s@, lit@),
{
    let n: usize = chars_of(lit).len();
    match find(s, lit) {
        Some(i) => {
            let total: usize = s.len();
            let a = slice_subrange(s, 0, i);
            let b = slice_subrange(s, i + n, total);
            proof {
                lemma_first_unique(s@, i as int, lit@);
                assert(a@ == s@.take(i as int));
                assert(b@ == s@.skip(i + n));
            }
            Some((a, b))
        },
        None => None,
    }
}

/// There is at most one first occurrence.
pub proof fn lemma_first_unique(s: Seq<char>, i: int, p: Seq<char>)
    requires
        first_occurs_at(s, i, p),
    ensures
        contains(s, p),
        (choose|k: int| first_occurs_at(s, k, p)) == i,
{
    let k = choose|k: int| first_occurs_at(s, k, p);
    assert(first_occurs_at(s, k, p));
    if k < i {
        assert(!occurs_at(s, k, p));
    }
    if i < k {
        assert(!occurs_at(s, i, p));
    }
}

// ---- cutting into pieces ----

/// The position of the first `c` in `s`, or the length of `s`.
pub open spec fn index_of(s: Seq<char>, c: char) -> int
    decreases s.len(),
{
    if s.len() == 0 || s[0] == c {
        0
    } else {
        1 + index_of(s.skip(1), c)
    }
}

pub proof fn lemma_index_of(s: Seq<char>, c: char, n: int)
    requires
        0 <= n <= s.len(),
        forall|j: int| 0 <= j < n ==> s[j] != c,
        n < s.len() ==> s[n] == c,
    ensures
        index_of(s, c) == n,
    decreases s.len(),
{
    if s.len() > 0 && n > 0 {
        assert(s[0] != c);
        lemma_index_of(s.skip(1), c, n - 1);
    }
}

pub proof fn lemma_index_of_bound(s: Seq<char>, c: char)
    ensures
        0 <= index_of(s, c) <= s.len(),
    decreases s.len(),
{
    if s.len() > 0 && s[0] != c {
        lemma_index_of_bound(s.skip(1), c);
    }
}

/// What stands at the first position of `c`, and what stands before it.
pub proof fn lemma_index_found(s: Seq<char>, c: char)
    ensures
        forall|j: int| 0 <= j < index_of(s, c) ==> s[j] != c,
        index_of(s, c) < s.len() ==> s[index_of(s, c)] == c,
    decreases s.len(),
{
    if s.len() > 0 && s[0] != c {
        let rest = s.skip(1);
        lemma_index_found(rest, c);
        lemma_index_of_bound(rest, c);
        assert forall|j: int| 0 <= j < index_of(s, c) implies s[j] != c by {
            if j > 0 {
                assert(rest[j - 1] == s[j]);
            }
        }
    }
}

/// The position of the first `c`, or the length.
pub fn position(s: &[char], c: char) -> (r: usize)
    ensures
        r == index_of(s@, c),
        r <= s@.len(),
{
    let mut i: usize = 0;
    while i < s.len() && s[i] != c
        invariant
            i <= s@.len(),
            forall|j: int| 0 <= j < i ==> s@[j] != c,
        decreases s@.len() - i,
    {
        i += 1;
    }
    proof {
        lemma_index_of(s@, c, i as int);
    }
    i
}

/// What precedes and what follows the first `c` in `s`.
pub open spec fn split_at_char(s: Seq<char>, c: char) -> Option<(Seq<char>, Seq<char>)> {
    let i = index_of(s, c);
    if i < s.len() {
        Some((s.take(i), s.skip(i + 1)))
    } else {
        None
    }
}

/// Cuts `s` around the first `c` in it.
pub fn split_once_char<'a>(s: &'a [char], c: char) -> (r: Option<(&'a [char], &'a [char])>)
    ensures
        pair_view(r) == split_at_char(s@, c),
{
    let i = position(s, c);
    if i < s.len() {
        let a = slice_subrange(s, 0, i);
        let b = slice_subrange(s, i + 1, s.len());
        assert(a@ == s@.take(i as int));
        assert(b@ == s@.skip(i + 1));
        Some((a, b))
    } else {
        None
    }
}

/// Several slices as a sequence of sequences.
pub open spec fn views(v: Seq<&[char]>) -> Seq<Seq<char>> {
    v.map_values(|x: &[char]| x@)
}

/// The pieces of `s` between the occurrences of `c`.
pub open spec fn pieces(s: Seq<char>, c: char) -> Seq<Seq<char>>
    decreases s.len(),
{
    let i = index_of(s, c);
    if 0 <= i < s.len() {
        seq![s.take(i)] + pieces(s.skip(i + 1), c)
    } else {
        seq![s]
    }
}

/// The pieces of a text that a `c` joins are those of both parts.
pub proof fn lemma_pieces_of_both(a: Seq<char>, c: char, b: Seq<char>)
    ensures
        pieces(a + seq![c] + b, c) == pieces(a, c) + pieces(b, c),
    decreases a.len(),
{
    let s = a + seq![c] + b;
    let i = index_of(a, c);
    lemma_index_of_bound(a, c);
    lemma_index_found(a, c);
    assert(forall|j: int| 0 <= j < a.len() ==> s[j] == a[j]);
    lemma_index_of(s, c, i);
    assert(s.take(i) =~= a.take(i));
    if i < a.len() {
        let rest = a.skip(i + 1);
        lemma_pieces_of_both(rest, c, b);
        assert(s.skip(i + 1) =~= rest + seq![c] + b);
        assert(pieces(s, c) =~= pieces(a, c) + pieces(b, c));
    } else {
        assert(a.take(i) =~= a);
        assert(s.skip(i + 1) =~= b);
        assert(pieces(s, c) =~= pieces(a, c) + pieces(b, c));
    }
}

/// A text without `c` is one piece.
pub proof fn lemma_one_piece(s: Seq<char>, c: char)
    requires
        forall|j: int| 0 <= j < s.len() ==> s[j] != c,
    ensures
        pieces(s, c) == seq![s],
{
    lemma_index_of(s, c, s.len() as int);
}

/// Cuts `s` at every `c`.
pub fn split<'a>(s: &'a [char], c: char) -> (r: Vec<&'a [char]>)
    ensures
        views(r@) == pieces(s@, c),
{
    let mut out: Vec<&'a [char]> = Vec::new();
    let mut rest: &'a [char] = s;
    assert(views(out@) + pieces(rest@, c) == pieces(s@, c));
    loop
        invariant
            views(out@) + pieces(rest@, c) == pieces(s@, c),
        decreases rest@.len(),
    {
        let i = position(rest, c);
        let ghost before = views(out@);
        if i >= rest.len() {
            out.push(rest);
            assert(views(out@) == before + seq![rest@]);
            return out;
        }
        let head = slice_subrange(rest, 0, i);
        let next = slice_subrange(rest, i + 1, rest.len());
        assert(head@ == rest@.take(i as int));
        assert(next@ == rest@.skip(i + 1));
        out.push(head);
        assert(views(out@) == before.push(head@));
        assert(views(out@) + pieces(next@, c) == before + (seq![head@] + pieces(next@, c)));
        rest = next;
    }
}

/// A line without the carriage return that ended it together with the feed.
pub open spec fn without_return(s: Seq<char>) -> Seq<char> {
    if s.len() > 0 && s.last() == '\r' {
        s.drop_last()
    } else {
        s
    }
}

/// The lines of `s`. A line ends at a line feed, with the carriage return
/// before it if there is one; what follows the last line feed is a line of its
/// own unless it is empty.
pub open spec fn lines(s: Seq<char>) -> Seq<Seq<char>>
    decreases s.len(),
{
    let i = index_of(s, '\n');
    if s.len() == 0 {
        seq![]
    } else if 0 <= i < s.len() {
        seq![without_return(s.take(i))] + lines(s.skip(i + 1))
    } else {
        seq![s]
    }
}

/// What stands behind a line feed is cut into lines of its own.
pub proof fn lemma_lines_behind(s: Seq<char>, t: Seq<char>)
    requires
        s.len() > 0 ==> s.last() == '\n',
    ensures
        lines(s + t) == lines(s) + lines(t),
    decreases s.len(),
{
    if s.len() == 0 {
        assert(s + t =~= t);
        assert(lines(s) + lines(t) =~= lines(t));
    } else {
        let i = index_of(s, '\n');
        lemma_index_found(s, '\n');
        lemma_index_of_bound(s, '\n');
        assert(i < s.len()) by {
            assert(s[s.len() - 1] == '\n');
        }
        lemma_index_of(s + t, '\n', i);
        assert((s + t).take(i) =~= s.take(i));
        assert((s + t).skip(i + 1) =~= s.skip(i + 1) + t);
        lemma_lines_behind(s.skip(i + 1), t);
        assert(lines(s + t) =~= lines(s) + lines(t));
    }
}

/// Cuts `s` into lines.
pub fn lines_of<'a>(s: &'a [char]) -> (r: Vec<&'a [char]>)
    ensures
        views(r@) == lines(s@),
{
    let mut out: Vec<&'a [char]> = Vec::new();
    let mut rest: &'a [char] = s;
    assert(views(out@) + lines(rest@) == lines(s@));
    while rest.len() > 0
        invariant
            views(out@) + lines(rest@) == lines(s@),
        decreases rest@.len(),
    {
        let i = position(rest, '\n');
        let ghost before = views(out@);
        if i >= rest.len() {
            out.push(rest);
            assert(views(out@) == before + seq![rest@]);
            return out;
        }
        let head = slice_subrange(rest, 0, i);
        assert(head@ == rest@.take(i as int));
        let line = if head.len() > 0 && head[head.len() - 1] == '\r' {
            let l = slice_subrange(head, 0, head.len() - 1);
            assert(l@ == head@.drop_last());
            l
        } else {
            head
        };
        let next = slice_subrange(rest, i + 1, rest.len());
        assert(next@ == rest@.skip(i + 1));
        out.push(line);
        assert(views(out@) == before.push(line@));
        assert(views(out@) + lines(next@) == before + (seq![line@] + lines(next@)));
        rest = next;
    }
    assert(views(out@) + lines(rest@) == views(out@));
    out
}

/// How many characters of `s` come before its first white space.
pub open spec fn word_len(s: Seq<char>) -> int
    decreases s.len(),
{
    if s.len() == 0 || is_space(s[0]) {
        0
    } else {
        1 + word_len(s.skip(1))
    }
}

pub proof fn lemma_word_len(s: Seq<char>, n: int)
    requires
        0 <= n <= s.len(),
        forall|j: int| 0 <= j < n ==> !is_space(s[j]),
        n < s.len() ==> is_space(s[n]),
    ensures
        word_len(s) == n,
    decreases s.len(),
{
    if s.len() > 0 && n > 0 {
        assert(!is_space(s[0]));
        lemma_word_len(s.skip(1), n - 1);
    }
}

pub proof fn lemma_trim_start_len(s: Seq<char>)
    ensures
        trim_start(s).len() <= s.len(),
        trim_start(s).len() > 0 ==> !is_space(trim_start(s)[0]),
    decreases s.len(),
{
    if s.len() > 0 && is_space(s[0]) {
        lemma_trim_start_len(s.skip(1));
    }
}

pub proof fn lemma_word_len_bound(s: Seq<char>)
    ensures
        0 <= word_len(s) <= s.len(),
        s.len() > 0 && !is_space(s[0]) ==> word_len(s) > 0,
    decreases s.len(),
{
    if s.len() > 0 && !is_space(s[0]) {
        lemma_word_len_bound(s.skip(1));
    }
}

/// The words of `s`: its maximal runs of characters that are not white space.
pub open spec fn words(s: Seq<char>) -> Seq<Seq<char>>
    decreases s.len(),
{
    let t = trim_start(s);
    if t.len() == 0 {
        seq![]
    } else {
        proof {
            lemma_trim_start_len(s);
            lemma_word_len_bound(t);
        }
        seq![t.take(word_len(t))] + words(t.skip(word_len(t)))
    }
}

/// Cuts `s` into words.
pub fn words_of<'a>(s: &'a [char]) -> (r: Vec<&'a [char]>)
    ensures
        views(r@) == words(s@),
{
    let mut out: Vec<&'a [char]> = Vec::new();
    let mut rest: &'a [char] = s;
    assert(views(out@) + words(rest@) == words(s@));
    loop
        invariant
            views(out@) + words(rest@) == words(s@),
        decreases rest@.len(),
    {
        let t = trim_left(rest);
        proof {
            lemma_trim_start_len(rest@);
            lemma_word_len_bound(t@);
        }
        if t.len() == 0 {
            assert(views(out@) + words(rest@) == views(out@));
            return out;
        }
        let ghost before = views(out@);
        let mut n: usize = 0;
        while n < t.len() && !space(t[n])
            invariant
                n <= t@.len(),
                forall|j: int| 0 <= j < n ==> !is_space(t@[j]),
            decreases t@.len() - n,
        {
            n += 1;
        }
        proof {
            lemma_word_len(t@, n as int);
        }
        let word = slice_subrange(t, 0, n);
        let next = slice_subrange(t, n, t.len());
        assert(word@ == t@.take(n as int));
        assert(next@ == t@.skip(n as int));
        out.push(word);
        assert(views(out@) == before.push(word@));
        assert(views(out@) + words(next@) == before + (seq![word@] + words(next@)));
        rest = next;
    }
}

/// The first word of `s`, if it has one.
pub open spec fn first_word(s: Seq<char>) -> Option<Seq<char>> {
    if words(s).len() > 0 {
        Some(words(s)[0])
    } else {
        None
    }
}

/// The first word of `s`, if it has one.
pub fn word_of<'a>(s: &'a [char]) -> (r: Option<&'a [char]>)
    ensures
        slice_view(r) == first_word(s@),
{
    let w = words_of(s);
    if w.len() > 0 {
        assert(views(w@)[0] == w@[0]@);
        Some(w[0])
    } else {
        None
    }
}

/// The position of the first `w` among the words, or their number.
pub open spec fn index_among(ws: Seq<Seq<char>>, w: Seq<char>) -> int
    decreases ws.len(),
{
    if ws.len() == 0 || ws[0] == w {
        0
    } else {
        1 + index_among(ws.skip(1), w)
    }
}

pub proof fn lemma_index_among(ws: Seq<Seq<char>>, w: Seq<char>, n: int)
    requires
        0 <= n <= ws.len(),
        forall|j: int| 0 <= j < n ==> ws[j] != w,
        n < ws.len() ==> ws[n] == w,
    ensures
        index_among(ws, w) == n,
    decreases ws.len(),
{
    if ws.len() > 0 && n > 0 {
        assert(ws[0] != w);
        assert forall|j: int| 0 <= j < n - 1 implies ws.skip(1)[j] != w by {
            assert(ws[j + 1] != w);
        }
        lemma_index_among(ws.skip(1), w, n - 1);
    }
}

/// The position of the first word that spells `lit`, or the number of words.
pub fn position_among(ws: &Vec<&[char]>, lit: &str) -> (r: usize)
    ensures
        r == index_among(views(ws@), lit@),
        r <= ws@.len(),
{
    let mut i: usize = 0;
    while i < ws.len() && !text_is(ws[i], lit)
        invariant
            i <= ws@.len(),
            forall|j: int| 0 <= j < i ==> views(ws@)[j] != lit@,
        decreases ws@.len() - i,
    {
        assert(views(ws@)[i as int] == ws@[i as int]@);
        i += 1;
    }
    proof {
        if i < ws@.len() {
            assert(views(ws@)[i as int] == ws@[i as int]@);
        }
        lemma_index_among(views(ws@), lit@, i as int);
    }
    i
}

/// `s` without the run of `c` at its end.
pub open spec fn trim_end_of(s: Seq<char>, c: char) -> Seq<char>
    decreases s.len(),
{
    if s.len() > 0 && s.last() == c {
        trim_end_of(s.drop_last(), c)
    } else {
        s
    }
}

/// Drops the run of `c` at the end.
pub fn trim_right_of<'a>(s: &'a [char], c: char) -> (r: &'a [char])
    ensures
        r@ == trim_end_of(s@, c),
{
    let mut n: usize = s.len();
    assert(s@.take(n as int) == s@);
    while n > 0 && s[n - 1] == c
        invariant
            n <= s@.len(),
            trim_end_of(s@, c) == trim_end_of(s@.take(n as int), c),
        decreases n,
    {
        assert(s@.take(n as int).drop_last() == s@.take(n - 1));
        n -= 1;
    }
    let r = slice_subrange(s, 0, n);
    assert(r@ == s@.take(n as int));
    r
}

/// What stands somewhere stands somewhere first.
pub proof fn lemma_first_exists(s: Seq<char>, p: Seq<char>, i: int)
    requires
        occurs_at(s, i, p),
    ensures
        exists|k: int| first_occurs_at(s, k, p),
    decreases i,
{
    if forall|j: int| 0 <= j < i ==> !occurs_at(s, j, p) {
        assert(first_occurs_at(s, i, p));
    } else {
        let j = choose|j: int| 0 <= j < i && occurs_at(s, j, p);
        lemma_first_exists(s, p, j);
    }
}

/// Cutting around an occurrence leaves less than there was.
pub proof fn lemma_split_shrinks(s: Seq<char>, p: Seq<char>)
    requires
        p.len() > 0,
    ensures
        split_at_first(s, p) matches Some((a, b)) ==> b.len() < s.len(),
{
    if contains(s, p) {
        let i = choose|i: int| occurs_at(s, i, p);
        lemma_first_exists(s, p, i);
        let k = choose|k: int| first_occurs_at(s, k, p);
        assert(first_occurs_at(s, k, p));
    }
}

/// The parts of `s` between the occurrences of `p`, taken from the left.
pub open spec fn parts(s: Seq<char>, p: Seq<char>) -> Seq<Seq<char>>
    decreases s.len(),
{
    match split_at_first(s, p) {
        Some((a, b)) if p.len() > 0 => {
            proof {
                lemma_split_shrinks(s, p);
            }
            seq![a] + parts(b, p)
        },
        _ => seq![s],
    }
}

/// Cuts `s` at every `lit`.
pub fn split_str<'a>(s: &'a [char], lit: &str) -> (r: Vec<&'a [char]>)
    requires
        lit@.len() > 0,
    ensures
        views(r@) == parts(s@, lit@),
{
    let mut out: Vec<&'a [char]> = Vec::new();
    let mut rest: &'a [char] = s;
    assert(views(out@) + parts(rest@, lit@) == parts(s@, lit@));
    loop
        invariant
            lit@.len() > 0,
            views(out@) + parts(rest@, lit@) == parts(s@, lit@),
        decreases rest@.len(),
    {
        let ghost before = views(out@);
        proof {
            lemma_split_shrinks(rest@, lit@);
        }
        match split_once(rest, lit) {
            Some((head, next)) => {
                out.push(head);
                assert(views(out@) == before.push(head@));
                assert(views(out@) + parts(next@, lit@) == before + (seq![head@] + parts(
                    next@,
                    lit@,
                )));
                rest = next;
            },
            None => {
                out.push(rest);
                assert(views(out@) == before + seq![rest@]);
                return out;
            },
        }
    }
}

// ---- putting together ----

/// `a` and `b`, one after the other.
pub fn cat2(a: &str, b: &str) -> (r: String)
    ensures
        r@ == a@ + b@,
{
    let mut s: String = a.to_string();
    s.append(b);
    s
}

/// `a`, `b` and `c`, one after the other.
pub fn cat3(a: &str, b: &str, c: &str) -> (r: String)
    ensures
        r@ == a@ + b@ + c@,
{
    let mut s: String = cat2(a, b);
    s.append(c);
    s
}

/// `a`, `b`, `c` and `d`, one after the other.
pub fn cat4(a: &str, b: &str, c: &str, d: &str) -> (r: String)
    ensures
        r@ == a@ + b@ + c@ + d@,
{
    let mut s: String = cat3(a, b, c);
    s.append(d);
    s
}

/// `a`, `b`, `c`, `d` and `e`, one after the other.
pub fn cat5(a: &str, b: &str, c: &str, d: &str, e: &str) -> (r: String)
    ensures
        r@ == a@ + b@ + c@ + d@ + e@,
{
    let mut s: String = cat4(a, b, c, d);
    s.append(e);
    s
}

/// Several strings as a sequence of sequences.
pub open spec fn texts(v: Seq<String>) -> Seq<Seq<char>> {
    v.map_values(|x: String| x@)
}

/// The parts with `sep` between each two of them.
pub open spec fn join(parts: Seq<Seq<char>>, sep: Seq<char>) -> Seq<char>
    decreases parts.len(),
{
    if parts.len() == 0 {
        seq![]
    } else if parts.len() == 1 {
        parts[0]
    } else {
        join(parts.drop_last(), sep) + sep + parts.last()
    }
}

/// Joins strings with `sep` between each two of them.
pub fn joined(parts: &Vec<String>, sep: &str) -> (r: String)
    ensures
        r@ == join(texts(parts@), sep@),
{
    let mut out: String = String::new();
    let mut i: usize = 0;
    assert(texts(parts@).take(0) == Seq::<Seq<char>>::empty());
    while i < parts.len()
        invariant
            i <= parts@.len(),
            out@ == join(texts(parts@).take(i as int), sep@),
        decreases parts@.len() - i,
    {
        let ghost done = texts(parts@).take(i + 1);
        assert(done.drop_last() == texts(parts@).take(i as int));
        assert(done.last() == parts@[i as int]@);
        if i > 0 {
            out.append(sep);
        } else {
            assert(join(done, sep@) == done[0]);
            assert(out@ == Seq::<char>::empty());
        }
        out.append(parts[i].as_str());
        i += 1;
    }
    assert(texts(parts@).take(i as int) == texts(parts@));
    out
}

/// A text stands in anything built around it.
pub proof fn lemma_contains_part(a: Seq<char>, p: Seq<char>, b: Seq<char>)
    ensures
        contains(a + p + b, p),
{
    assert((a + p + b).subrange(a.len() as int, (a.len() + p.len()) as int) == p);
    assert(occurs_at(a + p + b, a.len() as int, p));
}

/// What stands in a part stands in the whole.
pub proof fn lemma_contains_through(a: Seq<char>, m: Seq<char>, b: Seq<char>, p: Seq<char>)
    requires
        contains(m, p),
    ensures
        contains(a + m + b, p),
{
    let i = choose|i: int| occurs_at(m, i, p);
    let k = a.len() + i;
    assert((a + m + b).subrange(k, k + p.len()) == m.subrange(i, i + p.len()));
    assert(occurs_at(a + m + b, k, p));
}

/// What stands between two texts stands in the whole.
pub proof fn lemma_contains_middle(a: Seq<char>, m: Seq<char>, b: Seq<char>)
    ensures
        contains(a + m + b, m),
{
    assert((a + m + b).subrange(a.len() as int, a.len() as int + m.len()) =~= m);
    assert(occurs_at(a + m + b, a.len() as int, m));
}

/// Every part stands in what they are joined to.
pub proof fn lemma_join_contains(parts: Seq<Seq<char>>, sep: Seq<char>, i: int)
    requires
        0 <= i < parts.len(),
    ensures
        contains(join(parts, sep), parts[i]),
    decreases parts.len(),
{
    let e = Seq::<char>::empty();
    if parts.len() == 1 {
        lemma_contains_part(e, parts[0], e);
        assert(e + parts[0] + e == parts[0]);
    } else if i == parts.len() - 1 {
        let head = join(parts.drop_last(), sep) + sep;
        lemma_contains_part(head, parts[i], e);
        assert(head + parts[i] + e == join(parts, sep));
    } else {
        let head = join(parts.drop_last(), sep);
        lemma_join_contains(parts.drop_last(), sep, i);
        lemma_contains_through(e, head, sep + parts.last(), parts[i]);
        assert(e + head + (sep + parts.last()) == join(parts, sep));
    }
}

/// What stands before the first white space, when something does, is the first
/// word.
pub proof fn lemma_first_word(s: Seq<char>, n: int)
    requires
        0 < n <= s.len(),
        forall|j: int| 0 <= j < n ==> !is_space(#[trigger] s[j]),
        n < s.len() ==> is_space(s[n]),
    ensures
        first_word(s) == Some(s.take(n)),
{
    assert(!is_space(s[0]));
    lemma_word_len(s, n);
}

/// One blank in front changes neither what is left when white space is trimmed
/// nor the words.
pub proof fn lemma_blank_in_front(s: Seq<char>)
    ensures
        trim(seq![' '] + s) == trim(s),
        words(seq![' '] + s) == words(s),
        first_word(seq![' '] + s) == first_word(s),
{
    let t = seq![' '] + s;
    assert(t[0] == ' ');
    assert(t.skip(1) =~= s);
    assert(trim_start(t) == trim_start(s));
    assert(words(t) =~= words(s));
}

} // verus!
