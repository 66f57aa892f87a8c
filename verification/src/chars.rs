//! Character classes and sequence helpers shared by the text pipeline.
//!
//! All text manipulation in this crate works on `Vec<char>` so that the
//! rewrite rules can be stated and proved over `Seq<char>`; the public
//! functions convert from and to `String` at the boundary.
use vstd::prelude::*;
use vstd::string::*;

verus! {

/// The whitespace class used by every rule of this crate: the Unicode
/// `White_Space` code points (the set that `str::trim_start` removes).
pub open spec fn is_ws(c: char) -> bool {
    ||| c == ' '
    ||| c == '\t'
    ||| c == '\n'
    ||| c == '\r'
    ||| c == '\u{000b}'
    ||| c == '\u{000c}'
    ||| c == '\u{0085}'
    ||| c == '\u{00a0}'
    ||| c == '\u{1680}'
    ||| ('\u{2000}' <= c && c <= '\u{200a}')
    ||| c == '\u{2028}'
    ||| c == '\u{2029}'
    ||| c == '\u{202f}'
    ||| c == '\u{205f}'
    ||| c == '\u{3000}'
}

/// An ASCII decimal digit: the only digits the rewrite rules read.
pub open spec fn is_digit(c: char) -> bool {
    '0' <= c && c <= '9'
}

/// The word-character class of the rewrite rules: ASCII letters, digits,
/// the underscore, and the German letters that occur in activity text.
/// Word boundaries of the pattern rules are taken with respect to this
/// fixed set — letters of other scripts are deliberately outside the
/// supported alphabet.
pub open spec fn is_word(c: char) -> bool {
    ||| ('a' <= c && c <= 'z')
    ||| ('A' <= c && c <= 'Z')
    ||| is_digit(c)
    ||| c == '_'
    ||| c == '\u{00e4}'
    ||| c == '\u{00f6}'
    ||| c == '\u{00fc}'
    ||| c == '\u{00c4}'
    ||| c == '\u{00d6}'
    ||| c == '\u{00dc}'
    ||| c == '\u{00df}'
}

/// Executable check for `is_ws`.
pub fn ws_char(c: char) -> (b: bool)
    ensures
        b == is_ws(c),
{
    c == ' ' || c == '\t' || c == '\n' || c == '\r' || c == '\u{000b}' || c == '\u{000c}'
        || c == '\u{0085}' || c == '\u{00a0}' || c == '\u{1680}' || ('\u{2000}' <= c && c
        <= '\u{200a}') || c == '\u{2028}' || c == '\u{2029}' || c == '\u{202f}' || c == '\u{205f}'
        || c == '\u{3000}'
}

/// Executable check for `is_digit`.
pub fn digit_char(c: char) -> (b: bool)
    ensures
        b == is_digit(c),
{
    '0' <= c && c <= '9'
}

/// Executable check for `is_word`.
pub fn word_char(c: char) -> (b: bool)
    ensures
        b == is_word(c),
{
    ('a' <= c && c <= 'z') || ('A' <= c && c <= 'Z') || ('0' <= c && c <= '9') || c == '_' || c
        == '\u{00e4}' || c == '\u{00f6}' || c == '\u{00fc}' || c == '\u{00c4}' || c == '\u{00d6}'
        || c == '\u{00dc}' || c == '\u{00df}'
}

/// The characters of a string slice as a vector, in order.
pub fn chars_vec(s: &str) -> (r: Vec<char>)
    ensures
        r@ == s@,
{
    let n = s.unicode_len();
    let mut r: Vec<char> = Vec::new();
    let mut i: usize = 0;
    while i < n
        invariant
            i <= n,
            n == s@.len(),
            r@ == s@.take(i as int),
        decreases n - i,
    {
        let c = s.get_char(i);
        r.push(c);
        assert(s@.take(i + 1 as int) =~= s@.take(i as int).push(s@[i as int]));
        i = i + 1;
    }
    assert(s@.take(n as int) =~= s@);
    r
}

/// Relies on the std `FromIterator` impl for `String`: collecting an
/// iterator over the chars of `v` yields the string of exactly those chars.
#[verifier::external_body]
pub fn string_from_chars(v: &Vec<char>) -> (r: String)
    ensures
        r@ == v@,
{
    v.iter().collect()
}

/// True when `p` occurs in `t` starting at position `i`.
pub open spec fn spec_has_at(t: Seq<char>, i: int, p: Seq<char>) -> bool {
    i + p.len() <= t.len() && t.subrange(i, i + p.len()) == p
}

/// Executable check for `spec_has_at`.
pub fn has_at(t: &Vec<char>, i: usize, p: &Vec<char>) -> (b: bool)
    requires
        i <= t@.len(),
    ensures
        b == spec_has_at(t@, i as int, p@),
{
    if t.len() - i < p.len() {
        assert(!spec_has_at(t@, i as int, p@));
        return false;
    }
    let n = t.len();
    let mut j: usize = 0;
    while j < p.len()
        invariant
            j <= p@.len(),
            i + p@.len() <= t@.len(),
            n == t@.len(),
            forall|k: int| 0 <= k < j ==> t@[i + k] == p@[k],
        decreases p@.len() - j,
    {
        if t[i + j] != p[j] {
            assert(t@.subrange(i as int, i + p@.len())[j as int] != p@[j as int]);
            return false;
        }
        j = j + 1;
    }
    assert(t@.subrange(i as int, i + p@.len()) =~= p@);
    true
}

/// Length of the run of characters satisfying `is_ws` at position `i` of `t`.
pub open spec fn ws_run(t: Seq<char>, i: int) -> int
    decreases t.len() - i,
{
    if 0 <= i < t.len() && is_ws(t[i]) {
        1 + ws_run(t, i + 1)
    } else {
        0
    }
}

/// Length of the run of digits at position `i` of `t`.
pub open spec fn digit_run(t: Seq<char>, i: int) -> int
    decreases t.len() - i,
{
    if 0 <= i < t.len() && is_digit(t[i]) {
        1 + digit_run(t, i + 1)
    } else {
        0
    }
}

/// Length of the run of word characters at position `i` of `t`.
pub open spec fn word_run(t: Seq<char>, i: int) -> int
    decreases t.len() - i,
{
    if 0 <= i < t.len() && is_word(t[i]) {
        1 + word_run(t, i + 1)
    } else {
        0
    }
}

/// Length of the run of the character `c` at position `i` of `t`.
pub open spec fn char_run(t: Seq<char>, i: int, c: char) -> int
    decreases t.len() - i,
{
    if 0 <= i < t.len() && t[i] == c {
        1 + char_run(t, i + 1, c)
    } else {
        0
    }
}

/// A run never reaches past the end of the sequence.
pub proof fn lemma_char_run_bounds(t: Seq<char>, i: int, c: char)
    requires
        0 <= i <= t.len(),
    ensures
        0 <= char_run(t, i, c),
        i + char_run(t, i, c) <= t.len(),
    decreases t.len() - i,
{
    if i < t.len() && t[i] == c {
        lemma_char_run_bounds(t, i + 1, c);
    }
}

/// Executable computation of `char_run`.
pub fn char_run_at(t: &Vec<char>, i: usize, c: char) -> (r: usize)
    requires
        i <= t@.len(),
    ensures
        r == char_run(t@, i as int, c),
        i + r <= t@.len(),
{
    let mut j: usize = i;
    while j < t.len() && t[j] == c
        invariant
            i <= j <= t@.len(),
            char_run(t@, i as int, c) == (j - i) + char_run(t@, j as int, c),
        decreases t@.len() - j,
    {
        j = j + 1;
    }
    proof {
        lemma_char_run_bounds(t@, j as int, c);
    }
    j - i
}

/// The character class of the rule that collapses a string made of
/// nothing else to the empty string: ASCII punctuation and digits, the
/// space separators, and the typographic punctuation and number signs of
/// the Latin-1 and general-punctuation blocks.  This is the rule's fixed
/// alphabet, a documented subset of the Unicode punctuation, separator
/// and number categories; a rarer punctuation character outside it is
/// treated as ordinary text and kept, a deliberate restriction of the
/// supported alphabet.
pub open spec fn is_collapsible(c: char) -> bool {
    ||| ('\u{0021}' <= c && c <= '\u{002f}')
    ||| ('0' <= c && c <= '9')
    ||| ('\u{003a}' <= c && c <= '\u{0040}')
    ||| ('\u{005b}' <= c && c <= '\u{0060}')
    ||| ('\u{007b}' <= c && c <= '\u{007e}')
    ||| c == ' '
    ||| c == '\u{00a0}'
    ||| c == '\u{00a1}'
    ||| c == '\u{00a7}'
    ||| c == '\u{00ab}'
    ||| c == '\u{00b2}'
    ||| c == '\u{00b3}'
    ||| c == '\u{00b7}'
    ||| c == '\u{00b9}'
    ||| c == '\u{00bb}'
    ||| ('\u{00bc}' <= c && c <= '\u{00bf}')
    ||| c == '\u{1680}'
    ||| ('\u{2000}' <= c && c <= '\u{200a}')
    ||| ('\u{2010}' <= c && c <= '\u{2027}')
    ||| c == '\u{2028}'
    ||| c == '\u{2029}'
    ||| c == '\u{202f}'
    ||| c == '\u{205f}'
    ||| c == '\u{3000}'
}

/// Executable check for `is_collapsible`.
pub fn collapsible_char(c: char) -> (b: bool)
    ensures
        b == is_collapsible(c),
{
    ('\u{0021}' <= c && c <= '\u{002f}') || ('0' <= c && c <= '9') || ('\u{003a}' <= c && c
        <= '\u{0040}') || ('\u{005b}' <= c && c <= '\u{0060}') || ('\u{007b}' <= c && c
        <= '\u{007e}') || c == ' ' || c == '\u{00a0}' || c == '\u{00a1}' || c == '\u{00a7}' || c
        == '\u{00ab}' || c == '\u{00b2}' || c == '\u{00b3}' || c == '\u{00b7}' || c
        == '\u{00b9}' || c == '\u{00bb}' || ('\u{00bc}' <= c && c <= '\u{00bf}') || c
        == '\u{1680}' || ('\u{2000}' <= c && c <= '\u{200a}') || ('\u{2010}' <= c && c
        <= '\u{2027}') || c == '\u{2028}' || c == '\u{2029}' || c == '\u{202f}' || c
        == '\u{205f}' || c == '\u{3000}'
}

/// A run never reaches past the end of the sequence.
pub proof fn lemma_ws_run_bounds(t: Seq<char>, i: int)
    requires
        0 <= i <= t.len(),
    ensures
        0 <= ws_run(t, i),
        i + ws_run(t, i) <= t.len(),
    decreases t.len() - i,
{
    if i < t.len() && is_ws(t[i]) {
        lemma_ws_run_bounds(t, i + 1);
    }
}

/// A run never reaches past the end of the sequence.
pub proof fn lemma_digit_run_bounds(t: Seq<char>, i: int)
    requires
        0 <= i <= t.len(),
    ensures
        0 <= digit_run(t, i),
        i + digit_run(t, i) <= t.len(),
    decreases t.len() - i,
{
    if i < t.len() && is_digit(t[i]) {
        lemma_digit_run_bounds(t, i + 1);
    }
}

/// A run never reaches past the end of the sequence.
pub proof fn lemma_word_run_bounds(t: Seq<char>, i: int)
    requires
        0 <= i <= t.len(),
    ensures
        0 <= word_run(t, i),
        i + word_run(t, i) <= t.len(),
    decreases t.len() - i,
{
    if i < t.len() && is_word(t[i]) {
        lemma_word_run_bounds(t, i + 1);
    }
}

/// Executable computation of `ws_run`.
pub fn ws_run_at(t: &Vec<char>, i: usize) -> (r: usize)
    requires
        i <= t@.len(),
    ensures
        r == ws_run(t@, i as int),
        i + r <= t@.len(),
{
    let mut j: usize = i;
    while j < t.len() && ws_char(t[j])
        invariant
            i <= j <= t@.len(),
            ws_run(t@, i as int) == (j - i) + ws_run(t@, j as int),
        decreases t@.len() - j,
    {
        j = j + 1;
    }
    proof {
        lemma_ws_run_bounds(t@, j as int);
    }
    j - i
}

/// Executable computation of `digit_run`.
pub fn digit_run_at(t: &Vec<char>, i: usize) -> (r: usize)
    requires
        i <= t@.len(),
    ensures
        r == digit_run(t@, i as int),
        i + r <= t@.len(),
{
    let mut j: usize = i;
    while j < t.len() && digit_char(t[j])
        invariant
            i <= j <= t@.len(),
            digit_run(t@, i as int) == (j - i) + digit_run(t@, j as int),
        decreases t@.len() - j,
    {
        j = j + 1;
    }
    proof {
        lemma_digit_run_bounds(t@, j as int);
    }
    j - i
}

/// Executable computation of `word_run`.
pub fn word_run_at(t: &Vec<char>, i: usize) -> (r: usize)
    requires
        i <= t@.len(),
    ensures
        r == word_run(t@, i as int),
        i + r <= t@.len(),
{
    let mut j: usize = i;
    while j < t.len() && word_char(t[j])
        invariant
            i <= j <= t@.len(),
            word_run(t@, i as int) == (j - i) + word_run(t@, j as int),
        decreases t@.len() - j,
    {
        j = j + 1;
    }
    proof {
        lemma_word_run_bounds(t@, j as int);
    }
    j - i
}

/// Appends all characters of `src` to `out`.
pub fn push_all(out: &mut Vec<char>, src: &Vec<char>)
    ensures
        final(out)@ == old(out)@ + src@,
{
    let mut k: usize = 0;
    let n = src.len();
    while k < n
        invariant
            k <= n,
            n == src@.len(),
            out@ == old(out)@ + src@.take(k as int),
        decreases n - k,
    {
        out.push(src[k]);
        assert(src@.take(k + 1 as int) =~= src@.take(k as int).push(src@[k as int]));
        assert(out@ =~= old(out)@ + src@.take(k + 1 as int));
        k = k + 1;
    }
    assert(src@.take(n as int) =~= src@);
}

/// Replacement of every occurrence of the literal pattern `p` in `t` by `r`:
/// occurrences are found left to right, do not overlap, and the replacement
/// text is not scanned again (the semantics of `str::replace`).
pub open spec fn replace_lit_spec(t: Seq<char>, p: Seq<char>, r: Seq<char>) -> Seq<char>
    decreases t.len(),
{
    if p.len() == 0 || t.len() < p.len() {
        t
    } else if t.take(p.len() as int) == p {
        r + replace_lit_spec(t.skip(p.len() as int), p, r)
    } else {
        seq![t[0]] + replace_lit_spec(t.skip(1), p, r)
    }
}

/// Executable form of `replace_lit_spec`.
pub fn replace_lit(t: &Vec<char>, p: &Vec<char>, r: &Vec<char>) -> (out: Vec<char>)
    ensures
        out@ == replace_lit_spec(t@, p@, r@),
{
    if p.len() == 0 {
        let out = subrange_vec(t, 0, t.len());
        assert(t@.subrange(0, t@.len() as int) =~= t@);
        return out;
    }
    let mut out: Vec<char> = Vec::new();
    let mut i: usize = 0;
    let n = t.len();
    assert(t@.skip(0) =~= t@);
    assert(out@ + replace_lit_spec(t@, p@, r@) =~= replace_lit_spec(t@, p@, r@));
    while i < n
        invariant
            i <= n,
            n == t@.len(),
            p@.len() >= 1,
            replace_lit_spec(t@, p@, r@) == out@ + replace_lit_spec(t@.skip(i as int), p@, r@),
        decreases n - i,
    {
        let ghost s = t@.skip(i as int);
        let ghost out0 = out@;
        if has_at(t, i, p) {
            assert(s.take(p@.len() as int) =~= t@.subrange(i as int, i + p@.len()));
            push_all(&mut out, r);
            i = i + p.len();
            proof {
                assert(s.skip(p@.len() as int) =~= t@.skip(i as int));
                assert(replace_lit_spec(s, p@, r@) == r@ + replace_lit_spec(
                    t@.skip(i as int),
                    p@,
                    r@,
                ));
                assert((out0 + r@) + replace_lit_spec(t@.skip(i as int), p@, r@) =~= out0 + (r@
                    + replace_lit_spec(t@.skip(i as int), p@, r@)));
            }
        } else {
            proof {
                if s.len() >= p@.len() {
                    assert(s.take(p@.len() as int) =~= t@.subrange(i as int, i + p@.len()));
                    assert(!(s.take(p@.len() as int) == p@));
                }
            }
            out.push(t[i]);
            i = i + 1;
            proof {
                assert(s.skip(1) =~= t@.skip(i as int));
                if s.len() < p@.len() {
                    assert(replace_lit_spec(s, p@, r@) == s);
                    assert(s.skip(1).len() < p@.len());
                    assert(replace_lit_spec(s.skip(1), p@, r@) == s.skip(1));
                    assert(s =~= seq![s[0]] + s.skip(1));
                }
                assert(replace_lit_spec(s, p@, r@) == seq![s[0]] + replace_lit_spec(
                    t@.skip(i as int),
                    p@,
                    r@,
                ));
                assert((out0 + seq![s[0]]) + replace_lit_spec(t@.skip(i as int), p@, r@) =~= out0
                    + (seq![s[0]] + replace_lit_spec(t@.skip(i as int), p@, r@)));
                assert(out@ =~= out0 + seq![s[0]]);
            }
        }
    }
    assert(t@.skip(n as int) =~= Seq::<char>::empty());
    assert(replace_lit_spec(Seq::<char>::empty(), p@, r@) == Seq::<char>::empty());
    assert(out@ + Seq::<char>::empty() =~= out@);
    out
}

/// The characters of `t` from `from` (inclusive) to `to` (exclusive).
pub fn subrange_vec(t: &Vec<char>, from: usize, to: usize) -> (out: Vec<char>)
    requires
        from <= to <= t@.len(),
    ensures
        out@ == t@.subrange(from as int, to as int),
{
    let mut out: Vec<char> = Vec::new();
    let mut i: usize = from;
    while i < to
        invariant
            from <= i <= to <= t@.len(),
            out@ == t@.subrange(from as int, i as int),
        decreases to - i,
    {
        out.push(t[i]);
        assert(t@.subrange(from as int, i + 1 as int) =~= t@.subrange(
            from as int,
            i as int,
        ).push(t@[i as int]));
        i = i + 1;
    }
    out
}

/// True when the literal pattern `p` occurs somewhere in `t`.
pub open spec fn spec_contains(t: Seq<char>, p: Seq<char>) -> bool {
    exists|i: int| 0 <= i && spec_has_at(t, i, p)
}

/// Executable check for `spec_contains`.
pub fn contains_sub(t: &Vec<char>, p: &Vec<char>) -> (b: bool)
    ensures
        b == spec_contains(t@, p@),
{
    let n = t.len();
    if p.len() > n {
        assert(forall|i: int| 0 <= i ==> !spec_has_at(t@, i, p@));
        return false;
    }
    if p.len() == 0 {
        assert(t@.subrange(0, 0) =~= p@);
        assert(spec_has_at(t@, 0, p@));
        return true;
    }
    let mut i: usize = 0;
    while i <= n - p.len()
        invariant
            1 <= p@.len() <= n,
            n == t@.len(),
            i <= n - p@.len() + 1,
            forall|j: int| 0 <= j < i ==> !spec_has_at(t@, j, p@),
        decreases n - i,
    {
        if has_at(t, i, p) {
            assert(spec_has_at(t@, i as int, p@));
            return true;
        }
        i = i + 1;
    }
    assert(forall|j: int| 0 <= j ==> !spec_has_at(t@, j, p@)) by {
        assert(forall|j: int| j > n - p@.len() ==> !spec_has_at(t@, j, p@));
    }
    false
}

/// `t` without its leading whitespace.
pub open spec fn trim_start_spec(t: Seq<char>) -> Seq<char> {
    t.skip(ws_run(t, 0))
}

/// `t` without its trailing whitespace.
pub open spec fn trim_end_spec(t: Seq<char>) -> Seq<char>
    decreases t.len(),
{
    if t.len() > 0 && is_ws(t.last()) {
        trim_end_spec(t.drop_last())
    } else {
        t
    }
}

/// `t` without leading and trailing whitespace (the semantics of `str::trim`).
pub open spec fn trim_spec(t: Seq<char>) -> Seq<char> {
    trim_end_spec(trim_start_spec(t))
}

proof fn lemma_trim_end_take(t: Seq<char>, j: int)
    requires
        0 <= j <= t.len(),
        forall|k: int| j <= k < t.len() ==> is_ws(t[k]),
    ensures
        trim_end_spec(t) == trim_end_spec(t.take(j)),
    decreases t.len() - j,
{
    if j < t.len() {
        assert(is_ws(t.last()));
        assert(t.drop_last() =~= t.take(t.len() - 1));
        lemma_trim_end_take(t.take(t.len() - 1), j);
        assert(t.take(t.len() - 1).take(j) =~= t.take(j));
    } else {
        assert(t.take(j) =~= t);
    }
}

/// Executable form of `trim_spec`.
pub fn trim_chars(t: &Vec<char>) -> (out: Vec<char>)
    ensures
        out@ == trim_spec(t@),
{
    let start = ws_run_at(t, 0);
    let ghost m = t@.skip(start as int);
    let mut end = t.len();
    while end > start && ws_char(t[end - 1])
        invariant
            start <= end <= t@.len(),
            start == ws_run(t@, 0),
            forall|k: int| end <= k < t@.len() ==> is_ws(t@[k]),
        decreases end,
    {
        end = end - 1;
    }
    let mut out: Vec<char> = Vec::new();
    let mut i: usize = start;
    while i < end
        invariant
            start <= i <= end <= t@.len(),
            out@ == t@.subrange(start as int, i as int),
        decreases end - i,
    {
        out.push(t[i]);
        assert(t@.subrange(start as int, i + 1 as int) =~= t@.subrange(
            start as int,
            i as int,
        ).push(t@[i as int]));
        i = i + 1;
    }
    proof {
        lemma_trim_end_take(m, end - start);
        if end > start {
            assert(!is_ws(m.take(end - start).last()));
        }
        assert(m.take(end - start) =~= t@.subrange(start as int, end as int));
        assert(trim_end_spec(m.take(end - start)) == m.take(end - start));
    }
    out
}

/// `t` with one leading occurrence of `p` removed, if `t` starts with `p`.
pub open spec fn strip_prefix_spec(t: Seq<char>, p: Seq<char>) -> Seq<char> {
    if p.len() <= t.len() && t.take(p.len() as int) == p {
        t.skip(p.len() as int)
    } else {
        t
    }
}

/// Executable form of `strip_prefix_spec`.
pub fn strip_prefix_vec(t: &Vec<char>, p: &Vec<char>) -> (out: Vec<char>)
    ensures
        out@ == strip_prefix_spec(t@, p@),
{
    if p.len() <= t.len() && has_at(t, 0, p) {
        assert(t@.take(p@.len() as int) =~= t@.subrange(0, p@.len() as int));
        subrange_vec(t, p.len(), t.len())
    } else {
        proof {
            if p@.len() <= t@.len() {
                assert(t@.take(p@.len() as int) =~= t@.subrange(0, p@.len() as int));
            }
        }
        let out = subrange_vec(t, 0, t.len());
        assert(t@.subrange(0, t@.len() as int) =~= t@);
        out
    }
}

/// `t` with one trailing occurrence of `p` removed, if `t` ends with `p`.
pub open spec fn strip_suffix_spec(t: Seq<char>, p: Seq<char>) -> Seq<char> {
    if p.len() <= t.len() && t.skip(t.len() - p.len()) == p {
        t.take(t.len() - p.len())
    } else {
        t
    }
}

/// Executable form of `strip_suffix_spec`.
pub fn strip_suffix_vec(t: &Vec<char>, p: &Vec<char>) -> (out: Vec<char>)
    ensures
        out@ == strip_suffix_spec(t@, p@),
{
    if p.len() <= t.len() && has_at(t, t.len() - p.len(), p) {
        assert(t@.skip(t@.len() - p@.len()) =~= t@.subrange(t@.len() - p@.len(), t@.len() as int));
        subrange_vec(t, 0, t.len() - p.len())
    } else {
        proof {
            if p@.len() <= t@.len() {
                assert(t@.skip(t@.len() - p@.len()) =~= t@.subrange(
                    t@.len() - p@.len(),
                    t@.len() as int,
                ));
            }
        }
        let out = subrange_vec(t, 0, t.len());
        assert(t@.subrange(0, t@.len() as int) =~= t@);
        out
    }
}

/// Lexicographic order on character sequences by code point, the order of
/// `str` comparison.
pub open spec fn lex_lt(a: Seq<char>, b: Seq<char>) -> bool
    decreases a.len(),
{
    if b.len() == 0 {
        false
    } else if a.len() == 0 {
        true
    } else if a[0] != b[0] {
        a[0] < b[0]
    } else {
        lex_lt(a.skip(1), b.skip(1))
    }
}

/// Executable check for `lex_lt`.
pub fn lex_lt_vec(a: &Vec<char>, b: &Vec<char>) -> (r: bool)
    ensures
        r == lex_lt(a@, b@),
    decreases a@.len(),
{
    let mut i: usize = 0;
    assert(a@.skip(0) =~= a@);
    assert(b@.skip(0) =~= b@);
    loop
        invariant
            i <= a@.len(),
            i <= b@.len(),
            lex_lt(a@, b@) == lex_lt(a@.skip(i as int), b@.skip(i as int)),
        decreases a@.len() - i,
    {
        let ghost sa = a@.skip(i as int);
        let ghost sb = b@.skip(i as int);
        if i >= b.len() {
            return false;
        }
        if i >= a.len() {
            return true;
        }
        if a[i] != b[i] {
            return a[i] < b[i];
        }
        proof {
            assert(sa.skip(1) =~= a@.skip(i + 1));
            assert(sb.skip(1) =~= b@.skip(i + 1));
        }
        i = i + 1;
    }
}

/// The position of the first occurrence of `c` in `t`, or `-1`.
pub open spec fn find_char(t: Seq<char>, c: char) -> int
    decreases t.len(),
{
    if t.len() == 0 {
        -1
    } else if t[0] == c {
        0
    } else {
        let r = find_char(t.skip(1), c);
        if r == -1 {
            -1
        } else {
            1 + r
        }
    }
}

/// The first occurrence is the first position whose character is `c`.
pub proof fn lemma_find_char_at(t: Seq<char>, c: char, j: int)
    requires
        0 <= j < t.len(),
        t[j] == c,
        forall|k: int| 0 <= k < j ==> t[k] != c,
    ensures
        find_char(t, c) == j,
    decreases t.len(),
{
    if j > 0 {
        assert(forall|k: int| 0 <= k < j - 1 ==> t.skip(1)[k] != c);
        lemma_find_char_at(t.skip(1), c, j - 1);
    }
}

/// A sequence without `c` has no occurrence.
pub proof fn lemma_find_char_none(t: Seq<char>, c: char)
    requires
        forall|k: int| 0 <= k < t.len() ==> t[k] != c,
    ensures
        find_char(t, c) == -1,
    decreases t.len(),
{
    if t.len() > 0 {
        assert(forall|k: int| 0 <= k < t.skip(1).len() ==> t.skip(1)[k] != c);
        lemma_find_char_none(t.skip(1), c);
    }
}

/// The split of `t` at every occurrence of the separator `c`: the list of
/// the segments between occurrences, in order.  A sequence without the
/// separator yields itself as the single segment; `n` separators yield
/// `n + 1` segments, empty segments included.
pub open spec fn split_char_spec(t: Seq<char>, c: char) -> Seq<Seq<char>>
    decreases t.len(),
{
    let f = find_char(t, c);
    if 0 <= f < t.len() {
        seq![t.take(f)] + split_char_spec(t.skip(f + 1), c)
    } else {
        seq![t]
    }
}

/// The split never yields zero segments.
pub proof fn lemma_split_char_len(t: Seq<char>, c: char)
    ensures
        split_char_spec(t, c).len() >= 1,
    decreases t.len(),
{
    let f = find_char(t, c);
    if f != -1 {
        lemma_find_char_bounds(t, c);
        lemma_split_char_len(t.skip(f + 1), c);
    }
}

/// A found occurrence lies within the sequence and carries `c`.
pub proof fn lemma_find_char_bounds(t: Seq<char>, c: char)
    ensures
        find_char(t, c) == -1 || (0 <= find_char(t, c) < t.len() && t[find_char(t, c)] == c),
    decreases t.len(),
{
    if t.len() > 0 && t[0] != c {
        lemma_find_char_bounds(t.skip(1), c);
    }
}

/// Executable form of `split_char_spec`.
pub fn split_char_vec(t: &Vec<char>, c: char) -> (out: Vec<Vec<char>>)
    ensures
        out@.len() == split_char_spec(t@, c).len(),
        forall|i: int| 0 <= i < out@.len() ==> out@[i]@ == split_char_spec(t@, c)[i],
        out@.len() >= 1,
    decreases t@.len(),
{
    proof {
        lemma_split_char_len(t@, c);
    }
    let n = t.len();
    let mut i: usize = 0;
    while i < n && t[i] != c
        invariant
            i <= n,
            n == t@.len(),
            forall|k: int| 0 <= k < i ==> t@[k] != c,
        decreases n - i,
    {
        i = i + 1;
    }
    if i == n {
        proof {
            lemma_find_char_none(t@, c);
        }
        let mut out: Vec<Vec<char>> = Vec::new();
        let whole = subrange_vec(t, 0, n);
        assert(t@.subrange(0, n as int) =~= t@);
        out.push(whole);
        assert(out@[0]@ == split_char_spec(t@, c)[0]);
        out
    } else {
        proof {
            lemma_find_char_at(t@, c, i as int);
        }
        let head = subrange_vec(t, 0, i);
        let rest = subrange_vec(t, i + 1, n);
        assert(rest@ =~= t@.skip(i + 1));
        let tail = split_char_vec(&rest, c);
        let mut out: Vec<Vec<char>> = Vec::new();
        out.push(head);
        let mut k: usize = 0;
        let m = tail.len();
        while k < m
            invariant
                k <= m,
                m == tail@.len(),
                out@.len() == 1 + k,
                out@[0]@ == t@.take(i as int),
                forall|j: int| 0 <= j < k ==> out@[j + 1]@ == tail@[j]@,
                forall|j: int| 0 <= j < m ==> tail@[j]@ == split_char_spec(t@.skip(i + 1), c)[j],
            decreases m - k,
        {
            let ghost tailview = tail@[k as int]@;
            let part = subrange_vec(&tail[k], 0, tail[k].len());
            assert(part@ =~= tailview);
            out.push(part);
            k = k + 1;
        }
        assert(forall|j: int| 0 <= j < out@.len() ==> out@[j]@ == split_char_spec(t@, c)[j]) by {
            assert(split_char_spec(t@, c) == seq![t@.take(i as int)] + split_char_spec(
                t@.skip(i + 1),
                c,
            ));
        }
        out
    }
}

/// The position of the first occurrence of the pattern `p` in `t`, or `-1`.
pub open spec fn find_sub(t: Seq<char>, p: Seq<char>) -> int
    decreases t.len(),
{
    if t.len() < p.len() {
        -1
    } else if t.take(p.len() as int) == p {
        0
    } else if t.len() == 0 {
        -1
    } else {
        let r = find_sub(t.skip(1), p);
        if r == -1 {
            -1
        } else {
            1 + r
        }
    }
}

/// The first occurrence is the first position where `p` stands.
pub proof fn lemma_find_sub_at(t: Seq<char>, p: Seq<char>, j: int)
    requires
        0 <= j,
        spec_has_at(t, j, p),
        forall|k: int| 0 <= k < j ==> !spec_has_at(t, k, p),
    ensures
        find_sub(t, p) == j,
    decreases t.len(),
{
    assert(t.subrange(j, j + p.len() as int) == p);
    if j == 0 {
        assert(t.take(p.len() as int) =~= t.subrange(0, p.len() as int));
    } else {
        assert(!spec_has_at(t, 0, p));
        if t.len() >= p.len() {
            assert(t.take(p.len() as int) =~= t.subrange(0, p.len() as int));
        }
        assert(spec_has_at(t.skip(1), j - 1, p)) by {
            assert(t.skip(1).subrange(j - 1, j - 1 + p.len() as int) =~= t.subrange(
                j,
                j + p.len() as int,
            ));
        }
        assert(forall|k: int| 0 <= k < j - 1 ==> !spec_has_at(t.skip(1), k, p)) by {
            assert forall|k: int| 0 <= k < j - 1 implies !spec_has_at(t.skip(1), k, p) by {
                if spec_has_at(t.skip(1), k, p) {
                    assert(t.subrange(k + 1, k + 1 + p.len() as int) =~= t.skip(1).subrange(
                        k,
                        k + p.len() as int,
                    ));
                    assert(spec_has_at(t, k + 1, p));
                }
            }
        }
        lemma_find_sub_at(t.skip(1), p, j - 1);
    }
}

/// A sequence without an occurrence of `p` has none at any position.
pub proof fn lemma_find_sub_none(t: Seq<char>, p: Seq<char>)
    requires
        forall|k: int| 0 <= k ==> !spec_has_at(t, k, p),
    ensures
        find_sub(t, p) == -1,
    decreases t.len(),
{
    if t.len() >= p.len() {
        assert(t.take(p.len() as int) =~= t.subrange(0, p.len() as int));
        assert(!spec_has_at(t, 0, p));
    }
    if t.len() > 0 && !(t.len() < p.len()) {
        assert(forall|k: int| 0 <= k ==> !spec_has_at(t.skip(1), k, p)) by {
            assert forall|k: int| 0 <= k implies !spec_has_at(t.skip(1), k, p) by {
                if spec_has_at(t.skip(1), k, p) {
                    assert(t.subrange(k + 1, k + 1 + p.len() as int) =~= t.skip(1).subrange(
                        k,
                        k + p.len() as int,
                    ));
                    assert(spec_has_at(t, k + 1, p));
                }
            }
        }
        lemma_find_sub_none(t.skip(1), p);
    }
}


/// The split of `t` at every occurrence of the pattern `p`, occurrences
/// taken left to right without overlap.
pub open spec fn split_str_spec(t: Seq<char>, p: Seq<char>) -> Seq<Seq<char>>
    decreases t.len(),
    when p.len() >= 1
{
    let f = find_sub(t, p);
    if 0 <= f && f + p.len() <= t.len() {
        seq![t.take(f)] + split_str_spec(t.skip(f + p.len()), p)
    } else {
        seq![t]
    }
}

/// Executable search for the first occurrence of `p` in `t`.
pub fn find_sub_vec(t: &Vec<char>, p: &Vec<char>) -> (r: Option<usize>)
    requires
        p@.len() >= 1,
    ensures
        r is Some ==> r->0 == find_sub(t@, p@) && spec_has_at(t@, r->0 as int, p@),
        r is None ==> find_sub(t@, p@) == -1,
{
    let n = t.len();
    if p.len() > n {
        proof {
            assert(forall|k: int| 0 <= k ==> !spec_has_at(t@, k, p@));
            lemma_find_sub_none(t@, p@);
        }
        return None;
    }
    let mut i: usize = 0;
    while i <= n - p.len()
        invariant
            1 <= p@.len() <= n,
            n == t@.len(),
            i <= n - p@.len() + 1,
            forall|j: int| 0 <= j < i ==> !spec_has_at(t@, j, p@),
        decreases n - i,
    {
        if has_at(t, i, p) {
            proof {
                lemma_find_sub_at(t@, p@, i as int);
            }
            return Some(i);
        }
        i = i + 1;
    }
    proof {
        assert(forall|j: int| 0 <= j ==> !spec_has_at(t@, j, p@)) by {
            assert(forall|j: int| j > n - p@.len() ==> !spec_has_at(t@, j, p@));
        }
        lemma_find_sub_none(t@, p@);
    }
    None
}

/// Executable form of `split_str_spec`.
pub fn split_str_vec(t: &Vec<char>, p: &Vec<char>) -> (out: Vec<Vec<char>>)
    requires
        p@.len() >= 1,
    ensures
        out@.len() == split_str_spec(t@, p@).len(),
        forall|i: int| 0 <= i < out@.len() ==> out@[i]@ == split_str_spec(t@, p@)[i],
        out@.len() >= 1,
    decreases t@.len(),
{
    let n = t.len();
    match find_sub_vec(t, p) {
        None => {
            let mut out: Vec<Vec<char>> = Vec::new();
            let whole = subrange_vec(t, 0, n);
            assert(t@.subrange(0, n as int) =~= t@);
            out.push(whole);
            assert(out@[0]@ == split_str_spec(t@, p@)[0]);
            out
        },
        Some(f) => {
            let head = subrange_vec(t, 0, f);
            let rest = subrange_vec(t, f + p.len(), n);
            assert(rest@ =~= t@.skip(f + p@.len()));
            assert(rest@.len() < t@.len());
            let tail = split_str_vec(&rest, p);
            let mut out: Vec<Vec<char>> = Vec::new();
            out.push(head);
            let mut k: usize = 0;
            let m = tail.len();
            while k < m
                invariant
                    k <= m,
                    m == tail@.len(),
                    out@.len() == 1 + k,
                    out@[0]@ == t@.take(f as int),
                    forall|j: int| 0 <= j < k ==> out@[j + 1]@ == tail@[j]@,
                    forall|j: int|
                        0 <= j < m ==> tail@[j]@ == split_str_spec(t@.skip(f + p@.len()), p@)[j],
                decreases m - k,
            {
                let ghost tailview = tail@[k as int]@;
                let part = subrange_vec(&tail[k], 0, tail[k].len());
                assert(part@ =~= tailview);
                out.push(part);
                k = k + 1;
            }
            assert(forall|j: int| 0 <= j < out@.len() ==> out@[j]@ == split_str_spec(t@, p@)[j])
                by {
                assert(split_str_spec(t@, p@) == seq![t@.take(f as int)] + split_str_spec(
                    t@.skip(f + p@.len()),
                    p@,
                ));
            }
            out
        },
    }
}

/// Length of the run of non-whitespace characters at position `i` of `t`.
pub open spec fn nonws_run(t: Seq<char>, i: int) -> int
    decreases t.len() - i,
{
    if 0 <= i < t.len() && !is_ws(t[i]) {
        1 + nonws_run(t, i + 1)
    } else {
        0
    }
}

/// A run never reaches past the end of the sequence.
pub proof fn lemma_nonws_run_bounds(t: Seq<char>, i: int)
    requires
        0 <= i <= t.len(),
    ensures
        0 <= nonws_run(t, i),
        i + nonws_run(t, i) <= t.len(),
    decreases t.len() - i,
{
    if i < t.len() && !is_ws(t[i]) {
        lemma_nonws_run_bounds(t, i + 1);
    }
}

/// Executable computation of `nonws_run`.
pub fn nonws_run_at(t: &Vec<char>, i: usize) -> (r: usize)
    requires
        i <= t@.len(),
    ensures
        r == nonws_run(t@, i as int),
        i + r <= t@.len(),
{
    let mut j: usize = i;
    while j < t.len() && !ws_char(t[j])
        invariant
            i <= j <= t@.len(),
            nonws_run(t@, i as int) == (j - i) + nonws_run(t@, j as int),
        decreases t@.len() - j,
    {
        j = j + 1;
    }
    proof {
        lemma_nonws_run_bounds(t@, j as int);
    }
    j - i
}

/// The views of a list of character vectors.
pub open spec fn views_of(vs: Seq<Vec<char>>) -> Seq<Seq<char>> {
    vs.map_values(|v: Vec<char>| v@)
}

/// The whitespace-separated fields of `t`, in order, without empties: the
/// semantics of `str::split_whitespace`.
pub open spec fn split_ws_spec(t: Seq<char>) -> Seq<Seq<char>>
    decreases t.len(),
{
    if t.len() == 0 {
        Seq::<Seq<char>>::empty()
    } else if is_ws(t[0]) {
        split_ws_spec(t.skip(1))
    } else {
        let w = nonws_run(t, 0);
        if 1 <= w <= t.len() {
            seq![t.take(w)] + split_ws_spec(t.skip(w))
        } else {
            seq![t]
        }
    }
}

/// Executable form of `split_ws_spec`.
pub fn split_ws_vec(t: &Vec<char>) -> (out: Vec<Vec<char>>)
    ensures
        out@.len() == split_ws_spec(t@).len(),
        forall|i: int| 0 <= i < out@.len() ==> out@[i]@ == split_ws_spec(t@)[i],
{
    let mut out: Vec<Vec<char>> = Vec::new();
    let mut i: usize = 0;
    let n = t.len();
    assert(t@.skip(0) =~= t@);
    assert(views_of(out@) =~= Seq::<Seq<char>>::empty());
    while i < n
        invariant
            i <= n,
            n == t@.len(),
            split_ws_spec(t@) == views_of(out@) + split_ws_spec(t@.skip(i as int)),
        decreases n - i,
    {
        let ghost views0 = views_of(out@);
        let ghost s = t@.skip(i as int);
        if ws_char(t[i]) {
            i = i + 1;
            proof {
                assert(s.skip(1) =~= t@.skip(i as int));
                assert(split_ws_spec(s) == split_ws_spec(t@.skip(i as int)));
            }
        } else {
            let w = nonws_run_at(t, i);
            proof {
                assert(nonws_run(s, 0) == w) by {
                    lemma_run_shift(t@, i as int, w as int);
                }
                assert(1 <= w <= s.len()) by {
                    lemma_nonws_run_bounds(s, 1);
                }
            }
            let part = subrange_vec(t, i, i + w);
            assert(part@ =~= s.take(w as int));
            out.push(part);
            i = i + w;
            proof {
                assert(s.skip(w as int) =~= t@.skip(i as int));
                assert(split_ws_spec(s) == seq![s.take(w as int)] + split_ws_spec(
                    t@.skip(i as int),
                ));
                assert(views_of(out@) =~= views0.push(s.take(w as int))) by {
                    assert(forall|k: int|
                        0 <= k < out@.len() ==> views_of(out@)[k] == #[trigger] out@[k]@);
                }
                assert((views0 + seq![s.take(w as int)]) + split_ws_spec(t@.skip(i as int)) =~= views0
                    + (seq![s.take(w as int)] + split_ws_spec(t@.skip(i as int))));
                assert(views0.push(s.take(w as int)) =~= views0 + seq![s.take(w as int)]);
            }
        }
    }
    proof {
        assert(t@.skip(n as int) =~= Seq::<char>::empty());
        assert(split_ws_spec(Seq::<char>::empty()) =~= Seq::<Seq<char>>::empty());
        assert(views_of(out@) + Seq::<Seq<char>>::empty() =~= views_of(out@));
        assert(forall|k: int| 0 <= k < out@.len() ==> views_of(out@)[k] == #[trigger] out@[k]@);
    }
    out
}

/// A non-whitespace run read from position `i` equals the run of the
/// shifted suffix.
proof fn lemma_run_shift(t: Seq<char>, i: int, w: int)
    requires
        0 <= i <= t.len(),
        w == nonws_run(t, i),
    ensures
        nonws_run(t.skip(i), 0) == w,
    decreases t.len() - i,
{
    let s = t.skip(i);
    if i < t.len() && !is_ws(t[i]) {
        lemma_run_shift(t, i + 1, nonws_run(t, i + 1));
        assert(t.skip(i + 1) =~= s.skip(1));
        assert(nonws_run(s.skip(1), 0) == nonws_run(t, i + 1));
        lemma_nonws_shift_one(s);
    }
}

/// Unfolding a non-whitespace run by one character.
proof fn lemma_nonws_shift_one(s: Seq<char>)
    requires
        s.len() > 0,
        !is_ws(s[0]),
    ensures
        nonws_run(s, 0) == 1 + nonws_run(s.skip(1), 0),
    decreases s.len(),
{
    lemma_nonws_skip(s, 1, 0);
}

/// A run within the suffix equals the run at the shifted position.
proof fn lemma_nonws_skip(s: Seq<char>, d: int, j: int)
    requires
        0 <= d,
        0 <= j,
        d + j <= s.len(),
    ensures
        nonws_run(s, d + j) == nonws_run(s.skip(d), j),
    decreases s.len() - d - j,
{
    if d + j < s.len() && !is_ws(s[d + j]) {
        assert(s.skip(d)[j] == s[d + j]);
        lemma_nonws_skip(s, d, j + 1);
    } else {
        if d + j < s.len() {
            assert(s.skip(d)[j] == s[d + j]);
        }
    }
}

/// The fields joined by single spaces: the semantics of joining with `" "`.
pub open spec fn join_space(parts: Seq<Seq<char>>) -> Seq<char>
    decreases parts.len(),
{
    if parts.len() == 0 {
        Seq::<char>::empty()
    } else if parts.len() == 1 {
        parts[0]
    } else {
        parts[0] + seq![' '] + join_space(parts.skip(1))
    }
}

/// Joining one more field appends a space and the field.
pub proof fn lemma_join_space_snoc(parts: Seq<Seq<char>>, x: Seq<char>)
    ensures
        parts.len() == 0 ==> join_space(parts.push(x)) == x,
        parts.len() > 0 ==> join_space(parts.push(x)) =~= join_space(parts) + seq![' '] + x,
    decreases parts.len(),
{
    if parts.len() == 0 {
        assert(parts.push(x)[0] == x);
    } else if parts.len() == 1 {
        assert(parts.push(x).skip(1) =~= seq![x]);
        assert(join_space(seq![x]) == x);
        assert(parts.push(x)[0] == parts[0]);
    } else {
        lemma_join_space_snoc(parts.skip(1), x);
        assert(parts.push(x).skip(1) =~= parts.skip(1).push(x));
        assert(parts.push(x)[0] == parts[0]);
        assert(join_space(parts.push(x)) == parts[0] + seq![' '] + join_space(
            parts.skip(1).push(x),
        ));
        assert((parts[0] + seq![' '] + (join_space(parts.skip(1)) + seq![' '] + x)) =~= (parts[0]
            + seq![' '] + join_space(parts.skip(1))) + seq![' '] + x);
    }
}

/// Executable form of `join_space` over a range of fields.
pub fn join_space_range(parts: &Vec<Vec<char>>, from: usize, to: usize) -> (out: Vec<char>)
    requires
        from <= to <= parts@.len(),
    ensures
        out@ == join_space(views_of(parts@).subrange(from as int, to as int)),
{
    let mut out: Vec<char> = Vec::new();
    let mut i: usize = from;
    let ghost all = views_of(parts@);
    assert(all.subrange(from as int, from as int) =~= Seq::<Seq<char>>::empty());
    while i < to
        invariant
            from <= i <= to <= parts@.len(),
            all == views_of(parts@),
            out@ == join_space(all.subrange(from as int, i as int)),
        decreases to - i,
    {
        let ghost sofar = all.subrange(from as int, i as int);
        if i > from {
            out.push(' ');
        }
        push_all(&mut out, &parts[i]);
        proof {
            assert(all[i as int] == parts@[i as int]@);
            assert(all.subrange(from as int, i + 1 as int) =~= sofar.push(all[i as int]));
            lemma_join_space_snoc(sofar, all[i as int]);
        }
        i = i + 1;
    }
    out
}

/// Lexicographic order, weakly: less than or equal.
pub open spec fn lex_le(a: Seq<char>, b: Seq<char>) -> bool {
    lex_lt(a, b) || a == b
}

/// Of two distinct sequences one is lexicographically smaller.
pub proof fn lemma_lex_total(a: Seq<char>, b: Seq<char>)
    ensures
        lex_lt(a, b) || lex_lt(b, a) || a == b,
    decreases a.len() + b.len(),
{
    if a.len() > 0 && b.len() > 0 && a[0] == b[0] {
        lemma_lex_total(a.skip(1), b.skip(1));
        if a.skip(1) == b.skip(1) {
            assert forall|i: int| 0 <= i < a.len() implies a[i] == b[i] by {
                if i > 0 {
                    assert(a.skip(1)[i - 1] == a[i]);
                    assert(b.skip(1)[i - 1] == b[i]);
                }
            }
            assert(a =~= b);
        }
    }
}

/// Lexicographic order is transitive.
pub proof fn lemma_lex_trans(a: Seq<char>, b: Seq<char>, c: Seq<char>)
    requires
        lex_lt(a, b),
        lex_lt(b, c),
    ensures
        lex_lt(a, c),
    decreases a.len(),
{
    if c.len() > 0 && a.len() > 0 {
        if a[0] == b[0] && b[0] == c[0] {
            lemma_lex_trans(a.skip(1), b.skip(1), c.skip(1));
        }
    }
}

/// The decimal digit character for a value below ten.
pub open spec fn digit_char_of(d: int) -> char {
    if d == 0 {
        '0'
    } else if d == 1 {
        '1'
    } else if d == 2 {
        '2'
    } else if d == 3 {
        '3'
    } else if d == 4 {
        '4'
    } else if d == 5 {
        '5'
    } else if d == 6 {
        '6'
    } else if d == 7 {
        '7'
    } else if d == 8 {
        '8'
    } else {
        '9'
    }
}

/// The decimal representation of `n`, without leading zeros.
pub open spec fn dec_str(n: int) -> Seq<char>
    decreases n,
{
    if n < 10 {
        seq![digit_char_of(n)]
    } else {
        dec_str(n / 10).push(digit_char_of(n % 10))
    }
}

/// Executable form of `dec_str` for `u32` values.
pub fn u32_dec_chars(n: u32) -> (out: Vec<char>)
    ensures
        out@ == dec_str(n as int),
    decreases n,
{
    if n < 10 {
        let d = digit_char_exec(n);
        let mut out: Vec<char> = Vec::new();
        out.push(d);
        assert(out@ =~= seq![digit_char_of(n as int)]);
        out
    } else {
        let mut out = u32_dec_chars(n / 10);
        let d = digit_char_exec(n % 10);
        out.push(d);
        out
    }
}

/// The digit character of a value below ten.
pub fn digit_char_exec(d: u32) -> (c: char)
    requires
        d < 10,
    ensures
        c == digit_char_of(d as int),
{
    if d == 0 {
        '0'
    } else if d == 1 {
        '1'
    } else if d == 2 {
        '2'
    } else if d == 3 {
        '3'
    } else if d == 4 {
        '4'
    } else if d == 5 {
        '5'
    } else if d == 6 {
        '6'
    } else if d == 7 {
        '7'
    } else if d == 8 {
        '8'
    } else {
        '9'
    }
}

} // verus!
