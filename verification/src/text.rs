//! Text primitives the parsers are built from, over sequences of chars:
//! whitespace-separated words, lines, and searching.
//!
//! The std string functions that vstd gives no specification and whose
//! behaviour takes more than a few lines to state (case mapping) are
//! reached through small trusted wrappers, one per std function, as are
//! `String::push` and string equality; everything built on them is
//! verified.

use vstd::prelude::*;

verus! {

// ---------------------------------------------------------------------
// Character classes and std wrappers.
// ---------------------------------------------------------------------

/// The code points with Unicode's `White_Space` property.
pub open spec fn spec_is_whitespace(c: char) -> bool {
    let u = c as u32;
    ||| 0x09 <= u <= 0x0d
    ||| u == 0x20
    ||| u == 0x85
    ||| u == 0xa0
    ||| u == 0x1680
    ||| 0x2000 <= u <= 0x200a
    ||| u == 0x2028
    ||| u == 0x2029
    ||| u == 0x202f
    ||| u == 0x205f
    ||| u == 0x3000
}

/// Whether `c` is whitespace in the sense of `char::is_whitespace`, which
/// std documents as the Unicode `White_Space` property.
pub fn is_whitespace(c: char) -> (r: bool)
    ensures
        r == spec_is_whitespace(c),
{
    let u = c as u32;
    (0x09 <= u && u <= 0x0d) || u == 0x20 || u == 0x85 || u == 0xa0 || u == 0x1680 || (0x2000 <= u
        && u <= 0x200a) || u == 0x2028 || u == 0x2029 || u == 0x202f || u == 0x205f || u == 0x3000
}

/// `String::push`: appends one char.
#[verifier::external_body]
pub(crate) fn push_char(s: &mut String, c: char)
    ensures
        final(s)@ == old(s)@.push(c),
{
    s.push(c)
}

/// `<str as PartialEq>::eq`: two string slices are equal when they hold the
/// same chars.
#[verifier::external_body]
pub(crate) fn str_eq(a: &str, b: &str) -> (r: bool)
    ensures
        r == (a@ == b@),
{
    a == b
}

/// Whether every char is ASCII.
pub open spec fn all_ascii(s: Seq<char>) -> bool {
    forall|i: int| 0 <= i < s.len() ==> (s[i] as u32) < 128
}

/// ASCII lowercase of one char.
pub open spec fn ascii_lower(c: char) -> char {
    if 'A' <= c <= 'Z' {
        ((c as u32) + 32) as char
    } else {
        c
    }
}

/// ASCII uppercase of one char.
pub open spec fn ascii_upper(c: char) -> char {
    if 'a' <= c <= 'z' {
        ((c as u32) - 32) as char
    } else {
        c
    }
}

/// What `str::to_lowercase` returns for these chars (Unicode lowercase
/// mapping).
pub uninterp spec fn spec_to_lowercase(s: Seq<char>) -> Seq<char>;

/// What `str::to_uppercase` returns for these chars (Unicode uppercase
/// mapping).
pub uninterp spec fn spec_to_uppercase(s: Seq<char>) -> Seq<char>;

/// `str::to_lowercase`. Its result is named; the one fact stated of it is
/// that on ASCII text it lowers `A`-`Z` and keeps every other char, as the
/// Unicode lowercase mapping does for ASCII.
#[verifier::external_body]
pub(crate) fn to_lowercase(s: &str) -> (r: String)
    ensures
        r@ == spec_to_lowercase(s@),
        all_ascii(s@) ==> r@ == s@.map_values(|c: char| ascii_lower(c)),
{
    s.to_lowercase()
}

/// `str::to_uppercase`. Its result is named; the one fact stated of it is
/// that on ASCII text it raises `a`-`z` and keeps every other char, as the
/// Unicode uppercase mapping does for ASCII.
#[verifier::external_body]
pub(crate) fn to_uppercase(s: &str) -> (r: String)
    ensures
        r@ == spec_to_uppercase(s@),
        all_ascii(s@) ==> r@ == s@.map_values(|c: char| ascii_upper(c)),
{
    s.to_uppercase()
}

/// `s` with every `from` replaced by `to`.
pub open spec fn spec_replace_char(s: Seq<char>, from: char, to: Seq<char>) -> Seq<char>
    decreases s.len(),
{
    if s.len() == 0 {
        s
    } else {
        let head = if s.last() == from {
            to
        } else {
            seq![s.last()]
        };
        spec_replace_char(s.drop_last(), from, to) + head
    }
}

/// `s` with every `from` replaced by `to` (what `str::replace` with a
/// char pattern returns).
pub fn replace_char(s: &str, from: char, to: &str) -> (r: String)
    ensures
        r@ == spec_replace_char(s@, from, to@),
{
    let cs = chars_of(s);
    let tos = chars_of(to);
    let mut r = String::new();
    let mut i: usize = 0;
    while i < cs.len()
        invariant
            i <= cs@.len(),
            cs@ == s@,
            tos@ == to@,
            r@ == spec_replace_char(cs@.take(i as int), from, to@),
        decreases cs.len() - i,
    {
        assert(cs@.take(i + 1).drop_last() =~= cs@.take(i as int));
        if cs[i] == from {
            let mut k: usize = 0;
            let ghost before = r@;
            while k < tos.len()
                invariant
                    k <= tos@.len(),
                    r@ == before + tos@.take(k as int),
                decreases tos.len() - k,
            {
                push_char(&mut r, tos[k]);
                assert(tos@.take(k + 1) =~= tos@.take(k as int).push(tos@[k as int]));
                k = k + 1;
            }
            assert(tos@.take(k as int) =~= tos@);
        } else {
            push_char(&mut r, cs[i]);
        }
        i = i + 1;
    }
    assert(cs@.take(cs@.len() as int) =~= cs@);
    r
}

// ---------------------------------------------------------------------
// Conversions between strings and char vectors.
// ---------------------------------------------------------------------

/// The chars of `s`.
pub fn chars_of(s: &str) -> (r: Vec<char>)
    ensures
        r@ == s@,
{
    broadcast use vstd::string::group_string_axioms;

    let mut v: Vec<char> = Vec::new();
    for c in it: s.chars()
        invariant
            v@ == it.seq().take(it.index()),
    {
        v.push(c);
    }
    v
}

/// A `String` holding the chars `cs`.
pub fn string_of(cs: &Vec<char>) -> (r: String)
    ensures
        r@ == cs@,
{
    let mut s = String::new();
    let mut i: usize = 0;
    while i < cs.len()
        invariant
            i <= cs.len(),
            s@ == cs@.take(i as int),
        decreases cs.len() - i,
    {
        push_char(&mut s, cs[i]);
        assert(cs@.take(i + 1) =~= cs@.take(i as int).push(cs@[i as int]));
        i = i + 1;
    }
    assert(cs@.take(cs.len() as int) =~= cs@);
    s
}

// ---------------------------------------------------------------------
// Searching.
// ---------------------------------------------------------------------

/// `pat` occurs in `s` at index `i`.
pub open spec fn matches_at(s: Seq<char>, pat: Seq<char>, i: int) -> bool {
    0 <= i && i + pat.len() <= s.len() && s.subrange(i, i + pat.len()) == pat
}

/// `i` is the first index at which `pat` occurs in `s`.
pub open spec fn is_first_match(s: Seq<char>, pat: Seq<char>, i: int) -> bool {
    &&& matches_at(s, pat, i)
    &&& forall|j: int| 0 <= j < i ==> !matches_at(s, pat, j)
}

/// The first index at which `pat` occurs in `s`, if any (what `str::find`
/// returns, counted in chars).
pub open spec fn spec_find(s: Seq<char>, pat: Seq<char>) -> Option<int> {
    if exists|i: int| is_first_match(s, pat, i) {
        Some(choose|i: int| is_first_match(s, pat, i))
    } else {
        None
    }
}

/// There is only one first occurrence.
pub proof fn lemma_first_match_unique(s: Seq<char>, pat: Seq<char>, i: int, j: int)
    requires
        is_first_match(s, pat, i),
        is_first_match(s, pat, j),
    ensures
        i == j,
{
}

/// `spec_find` names the first occurrence, and is `None` exactly when
/// `pat` does not occur.
pub proof fn lemma_find(s: Seq<char>, pat: Seq<char>)
    ensures
        spec_find(s, pat) matches Some(i) ==> is_first_match(s, pat, i),
        spec_find(s, pat) is None ==> forall|j: int| !matches_at(s, pat, j),
{
    if spec_find(s, pat) is None {
        assert forall|j: int| !matches_at(s, pat, j) by {
            if matches_at(s, pat, j) {
                lemma_least_match(s, pat, j);
            }
        }
    }
}

proof fn lemma_least_match(s: Seq<char>, pat: Seq<char>, j: int)
    requires
        matches_at(s, pat, j),
    ensures
        exists|i: int| is_first_match(s, pat, i),
    decreases j,
{
    if exists|k: int| 0 <= k < j && matches_at(s, pat, k) {
        let k = choose|k: int| 0 <= k < j && matches_at(s, pat, k);
        lemma_least_match(s, pat, k);
    } else {
        assert(is_first_match(s, pat, j));
    }
}

/// Whether `pat` occurs in `cs` at index `i`.
fn matches_at_exec(cs: &Vec<char>, pat: &Vec<char>, i: usize) -> (r: bool)
    requires
        i + pat@.len() <= cs@.len(),
    ensures
        r == matches_at(cs@, pat@, i as int),
{
    let n = cs.len();
    let mut k: usize = 0;
    while k < pat.len()
        invariant
            k <= pat@.len(),
            n == cs@.len(),
            i + pat@.len() <= cs@.len(),
            forall|m: int| 0 <= m < k ==> cs@[i + m] == pat@[m],
        decreases pat.len() - k,
    {
        if cs[i + k] != pat[k] {
            assert(cs@.subrange(i as int, i + pat@.len())[k as int] != pat@[k as int]);
            return false;
        }
        k = k + 1;
    }
    assert(cs@.subrange(i as int, i + pat@.len()) =~= pat@);
    true
}

/// The first index at which `pat` occurs in `cs`.
pub fn find(cs: &Vec<char>, pat: &Vec<char>) -> (r: Option<usize>)
    requires
        pat@.len() > 0,
    ensures
        match r {
            Some(i) => spec_find(cs@, pat@) == Some(i as int),
            None => spec_find(cs@, pat@) is None,
        },
{
    if pat.len() > cs.len() {
        assert forall|j: int| !matches_at(cs@, pat@, j) by {}
        assert(!exists|i: int| is_first_match(cs@, pat@, i));
        return None;
    }
    let last = cs.len() - pat.len();
    let mut i: usize = 0;
    while i <= last
        invariant
            last == cs@.len() - pat@.len(),
            last < cs.len(),
            i <= last + 1,
            forall|j: int| 0 <= j < i ==> !matches_at(cs@, pat@, j),
        decreases last + 1 - i,
    {
        if matches_at_exec(cs, pat, i) {
            assert(is_first_match(cs@, pat@, i as int));
            proof {
                lemma_find(cs@, pat@);
                let f = spec_find(cs@, pat@)->Some_0;
                lemma_first_match_unique(cs@, pat@, f, i as int);
            }
            return Some(i);
        }
        i = i + 1;
    }
    assert forall|j: int| !matches_at(cs@, pat@, j) by {}
    assert(!exists|i: int| is_first_match(cs@, pat@, i));
    None
}

/// The chars of `cs` from `from` (inclusive) to `to` (exclusive).
pub fn slice_chars(cs: &Vec<char>, from: usize, to: usize) -> (r: Vec<char>)
    requires
        from <= to <= cs@.len(),
    ensures
        r@ == cs@.subrange(from as int, to as int),
{
    let mut r: Vec<char> = Vec::new();
    let mut i: usize = from;
    while i < to
        invariant
            from <= i <= to <= cs@.len(),
            r@ == cs@.subrange(from as int, i as int),
        decreases to - i,
    {
        r.push(cs[i]);
        assert(cs@.subrange(from as int, i + 1) =~= cs@.subrange(from as int, i as int).push(
            cs@[i as int],
        ));
        i = i + 1;
    }
    r
}

/// Whether `c` occurs in `cs`.
pub fn contains_char(cs: &Vec<char>, c: char) -> (r: bool)
    ensures
        r == cs@.contains(c),
{
    let mut i: usize = 0;
    while i < cs.len()
        invariant
            i <= cs.len(),
            forall|j: int| 0 <= j < i ==> cs@[j] != c,
        decreases cs.len() - i,
    {
        if cs[i] == c {
            return true;
        }
        i = i + 1;
    }
    false
}

// ---------------------------------------------------------------------
// Words and lines.
// ---------------------------------------------------------------------

/// The views of a vector of char vectors.
pub open spec fn views_of(v: Seq<Vec<char>>) -> Seq<Seq<char>> {
    v.map_values(|x: Vec<char>| x@)
}

/// The scan state after reading `s` left to right: the words completed so
/// far, and the word being read.
pub open spec fn words_scan(s: Seq<char>) -> (Seq<Seq<char>>, Seq<char>)
    decreases s.len(),
{
    if s.len() == 0 {
        (Seq::empty(), Seq::empty())
    } else {
        let (done, cur) = words_scan(s.drop_last());
        if spec_is_whitespace(s.last()) {
            if cur.len() > 0 {
                (done.push(cur), Seq::empty())
            } else {
                (done, cur)
            }
        } else {
            (done, cur.push(s.last()))
        }
    }
}

/// What `str::split_whitespace` yields: the maximal non-empty runs of
/// non-whitespace chars, in order.
pub open spec fn spec_words(s: Seq<char>) -> Seq<Seq<char>> {
    let (done, cur) = words_scan(s);
    if cur.len() > 0 {
        done.push(cur)
    } else {
        done
    }
}

/// Reading a run of non-whitespace chars from the start leaves it as the
/// word being read, with no word completed.
proof fn lemma_words_scan_of_word(m: Seq<char>)
    requires
        forall|i: int| 0 <= i < m.len() ==> !spec_is_whitespace(#[trigger] m[i]),
    ensures
        words_scan(m) == (Seq::<Seq<char>>::empty(), m),
    decreases m.len(),
{
    if m.len() > 0 {
        lemma_words_scan_of_word(m.drop_last());
        assert(m.drop_last().push(m.last()) =~= m);
    }
}

/// Reading more text never takes back a completed word.
proof fn lemma_words_scan_extends(s: Seq<char>, t: Seq<char>)
    ensures
        words_scan(s).0.len() <= words_scan(s + t).0.len(),
        forall|i: int|
            0 <= i < words_scan(s).0.len() ==> #[trigger] words_scan(s + t).0[i] == words_scan(s).0[i],
    decreases t.len(),
{
    if t.len() == 0 {
        assert(s + t =~= s);
    } else {
        lemma_words_scan_extends(s, t.drop_last());
        assert((s + t).drop_last() =~= s + t.drop_last());
    }
}

/// A non-empty run of non-whitespace chars at the start of the text, ended
/// by whitespace or by the end of the text, is its first word.
pub proof fn lemma_first_word(m: Seq<char>, rest: Seq<char>)
    requires
        m.len() > 0,
        forall|i: int| 0 <= i < m.len() ==> !spec_is_whitespace(#[trigger] m[i]),
        rest.len() == 0 || spec_is_whitespace(rest[0]),
    ensures
        spec_words(m + rest).len() > 0,
        spec_words(m + rest)[0] == m,
{
    lemma_words_scan_of_word(m);
    if rest.len() == 0 {
        assert(m + rest =~= m);
    } else {
        let s = m.push(rest[0]);
        assert(s.drop_last() =~= m);
        assert(words_scan(s).0 =~= seq![m]);
        lemma_words_scan_extends(s, rest.skip(1));
        assert(s + rest.skip(1) =~= m + rest);
        assert(words_scan(m + rest).0[0] == m);
    }
}

/// The whitespace-separated words of `cs`.
pub fn split_words(cs: &Vec<char>) -> (r: Vec<Vec<char>>)
    ensures
        views_of(r@) == spec_words(cs@),
{
    let mut done: Vec<Vec<char>> = Vec::new();
    let mut cur: Vec<char> = Vec::new();
    let mut i: usize = 0;
    while i < cs.len()
        invariant
            i <= cs.len(),
            (views_of(done@), cur@) == words_scan(cs@.take(i as int)),
        decreases cs.len() - i,
    {
        let c = cs[i];
        assert(cs@.take(i + 1).drop_last() =~= cs@.take(i as int));
        if is_whitespace(c) {
            if cur.len() > 0 {
                let word = cur;
                cur = Vec::new();
                let ghost before = done@;
                done.push(word);
                assert(views_of(done@) =~= views_of(before).push(word@));
            }
        } else {
            cur.push(c);
        }
        i = i + 1;
    }
    assert(cs@.take(cs.len() as int) =~= cs@);
    if cur.len() > 0 {
        let ghost before = done@;
        let word = cur;
        done.push(word);
        assert(views_of(done@) =~= views_of(before).push(word@));
    }
    done
}

/// A line without the `'\r'` that ends it, if one does.
pub open spec fn strip_cr(line: Seq<char>) -> Seq<char> {
    if line.len() > 0 && line.last() == '\r' {
        line.drop_last()
    } else {
        line
    }
}

/// The scan state after reading `s` left to right: the lines completed so
/// far, and the line being read.
pub open spec fn lines_scan(s: Seq<char>) -> (Seq<Seq<char>>, Seq<char>)
    decreases s.len(),
{
    if s.len() == 0 {
        (Seq::empty(), Seq::empty())
    } else {
        let (done, cur) = lines_scan(s.drop_last());
        if s.last() == '\n' {
            (done.push(strip_cr(cur)), Seq::empty())
        } else {
            (done, cur.push(s.last()))
        }
    }
}

/// What `str::lines` yields: the text split at each `'\n'`, a `'\r'`
/// just before it dropped, and no empty line after a final `'\n'`.
pub open spec fn spec_lines(s: Seq<char>) -> Seq<Seq<char>> {
    let (done, cur) = lines_scan(s);
    if cur.len() > 0 {
        done.push(cur)
    } else {
        done
    }
}

/// The lines of `cs`.
pub fn split_lines(cs: &Vec<char>) -> (r: Vec<Vec<char>>)
    ensures
        views_of(r@) == spec_lines(cs@),
{
    let mut done: Vec<Vec<char>> = Vec::new();
    let mut cur: Vec<char> = Vec::new();
    let mut i: usize = 0;
    while i < cs.len()
        invariant
            i <= cs.len(),
            (views_of(done@), cur@) == lines_scan(cs@.take(i as int)),
        decreases cs.len() - i,
    {
        let c = cs[i];
        assert(cs@.take(i + 1).drop_last() =~= cs@.take(i as int));
        if c == '\n' {
            let mut line = cur;
            cur = Vec::new();
            if line.len() > 0 && line[line.len() - 1] == '\r' {
                line.pop();
            }
            let ghost before = done@;
            done.push(line);
            assert(views_of(done@) =~= views_of(before).push(line@));
        } else {
            cur.push(c);
        }
        i = i + 1;
    }
    assert(cs@.take(cs.len() as int) =~= cs@);
    if cur.len() > 0 {
        let ghost before = done@;
        let line = cur;
        done.push(line);
        assert(views_of(done@) =~= views_of(before).push(line@));
    }
    done
}

} // verus!
