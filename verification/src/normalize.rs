//! The text normalizer: an ordered rewrite pipeline that maps raw activity
//! text to a canonical label.
//!
//! The pipeline has four stages, applied in a fixed order that is
//! load-bearing (later rules assume the collapses of earlier ones):
//! literal jargon substitutions, literal whitespace and punctuation fixes,
//! position-scanning pattern rules, and boilerplate pattern removal.
//! Every rule is specified over `Seq<char>` and the executable pipeline is
//! proved to compute exactly the composition of the rule specifications.
use vstd::prelude::*;

use crate::chars::{
    chars_vec, char_run_at, digit_char, digit_run, digit_run_at, has_at, is_collapsible, is_digit,
    is_word, is_ws, push_all, replace_lit, replace_lit_spec, spec_has_at, string_from_chars,
    char_run, collapsible_char, strip_prefix_spec, strip_prefix_vec, strip_suffix_spec,
    strip_suffix_vec, subrange_vec, word_char, word_run, word_run_at, ws_char, ws_run, ws_run_at,
};

verus! {

/// One left-to-right rewrite scan over `t` starting at position `i`.
///
/// `m` gives the length of a rule match at a position (`0` when the rule
/// does not match there) and `r` gives the replacement for a match.
/// Matches are found left to right, do not overlap, and replacement text is
/// not scanned again — the semantics of a `replace_all` over the rule.
pub open spec fn scan_from(
    t: Seq<char>,
    i: int,
    m: spec_fn(Seq<char>, int) -> int,
    r: spec_fn(Seq<char>, int) -> Seq<char>,
) -> Seq<char>
    decreases t.len() - i,
    when 0 <= i <= t.len()
{
    if i >= t.len() {
        Seq::<char>::empty()
    } else {
        let l = m(t, i);
        if 1 <= l && i + l <= t.len() {
            r(t, i) + scan_from(t, i + l, m, r)
        } else {
            seq![t[i]] + scan_from(t, i + 1, m, r)
        }
    }
}

/// Match of a whitespace run (one or more characters).
pub open spec fn ws_any_match(t: Seq<char>, i: int) -> int {
    ws_run(t, i)
}

/// A whitespace run collapsed to a single space.
pub open spec fn space_rep(t: Seq<char>, i: int) -> Seq<char> {
    seq![' ']
}

/// Every whitespace run of `t` collapsed to a single space.
pub open spec fn ws_collapsed(t: Seq<char>) -> Seq<char> {
    scan_from(t, 0, |t2: Seq<char>, i2: int| ws_any_match(t2, i2), |t2: Seq<char>, i2: int| space_rep(t2, i2))
}

/// Executable form of `ws_collapsed`.
pub fn collapse_ws(t: &Vec<char>) -> (out: Vec<char>)
    ensures
        out@ == ws_collapsed(t@),
{
    let ghost m = |t2: Seq<char>, i2: int| ws_any_match(t2, i2);
    let ghost r = |t2: Seq<char>, i2: int| space_rep(t2, i2);
    let mut out: Vec<char> = Vec::new();
    let mut i: usize = 0;
    let n = t.len();
    assert(out@ + scan_from(t@, 0, m, r) =~= scan_from(t@, 0, m, r));
    while i < n
        invariant
            i <= n,
            n == t@.len(),
            ws_collapsed(t@) == out@ + scan_from(t@, i as int, m, r),
            m == (|t2: Seq<char>, i2: int| ws_any_match(t2, i2)),
            r == (|t2: Seq<char>, i2: int| space_rep(t2, i2)),
        decreases n - i,
    {
        let ghost out0 = out@;
        let l = ws_run_at(t, i);
        proof {
            assert(m(t@, i as int) == ws_any_match(t@, i as int));
            assert(r(t@, i as int) == space_rep(t@, i as int));
        }
        if l >= 1 {
            out.push(' ');
            i = i + l;
            proof {
                assert(scan_from(t@, i as int - l, m, r) == seq![' '] + scan_from(
                    t@,
                    i as int,
                    m,
                    r,
                ));
                assert((out0 + seq![' ']) + scan_from(t@, i as int, m, r) =~= out0 + (seq![' ']
                    + scan_from(t@, i as int, m, r)));
            }
        } else {
            out.push(t[i]);
            i = i + 1;
            proof {
                assert(scan_from(t@, i as int - 1, m, r) == seq![t@[i as int - 1]] + scan_from(
                    t@,
                    i as int,
                    m,
                    r,
                ));
                assert((out0 + seq![t@[i as int - 1]]) + scan_from(t@, i as int, m, r) =~= out0 + (
                seq![t@[i as int - 1]] + scan_from(t@, i as int, m, r)));
            }
        }
    }
    out
}

/// Match of a whitespace run of length at least two.
pub open spec fn ws_two_match(t: Seq<char>, i: int) -> int {
    if ws_run(t, i) >= 2 {
        ws_run(t, i)
    } else {
        0
    }
}

/// Every whitespace run of two or more characters collapsed to one space.
pub open spec fn ws_two_collapsed(t: Seq<char>) -> Seq<char> {
    scan_from(
        t,
        0,
        |t2: Seq<char>, i2: int| ws_two_match(t2, i2),
        |t2: Seq<char>, i2: int| space_rep(t2, i2),
    )
}

/// The empty replacement.
pub open spec fn empty_rep(t: Seq<char>, i: int) -> Seq<char> {
    Seq::<char>::empty()
}

/// Match of an ellipsis: a run of three or more dots.
pub open spec fn dots_match(t: Seq<char>, i: int) -> int {
    if char_run(t, i, '.') >= 3 {
        char_run(t, i, '.')
    } else {
        0
    }
}

/// Every run of three or more dots removed.
pub open spec fn dots_removed(t: Seq<char>) -> Seq<char> {
    scan_from(
        t,
        0,
        |t2: Seq<char>, i2: int| dots_match(t2, i2),
        |t2: Seq<char>, i2: int| empty_rep(t2, i2),
    )
}

/// Match of a dotted numeric triple: digits, a dot, digits, a dot, digits.
pub open spec fn triple_num_match(t: Seq<char>, i: int) -> int {
    let a = digit_run(t, i);
    if a >= 1 && i + a < t.len() && t[i + a] == '.' {
        let b = digit_run(t, i + a + 1);
        if b >= 1 && i + a + 1 + b < t.len() && t[i + a + 1 + b] == '.' {
            let c = digit_run(t, i + a + 1 + b + 1);
            if c >= 1 {
                a + 1 + b + 1 + c
            } else {
                0
            }
        } else {
            0
        }
    } else {
        0
    }
}

/// Every dotted numeric triple removed.
pub open spec fn triple_num_removed(t: Seq<char>) -> Seq<char> {
    scan_from(
        t,
        0,
        |t2: Seq<char>, i2: int| triple_num_match(t2, i2),
        |t2: Seq<char>, i2: int| empty_rep(t2, i2),
    )
}

/// Match of a dotted numeric pair: digits, a dot, digits.
pub open spec fn pair_num_match(t: Seq<char>, i: int) -> int {
    let a = digit_run(t, i);
    if a >= 1 && i + a < t.len() && t[i + a] == '.' {
        let b = digit_run(t, i + a + 1);
        if b >= 1 {
            a + 1 + b
        } else {
            0
        }
    } else {
        0
    }
}

/// Every dotted numeric pair removed.
pub open spec fn pair_num_removed(t: Seq<char>) -> Seq<char> {
    scan_from(
        t,
        0,
        |t2: Seq<char>, i2: int| pair_num_match(t2, i2),
        |t2: Seq<char>, i2: int| empty_rep(t2, i2),
    )
}

/// Match of an empty parenthesis pair: `(`, optional whitespace, `)`.
pub open spec fn empty_parens_match(t: Seq<char>, i: int) -> int {
    if 0 <= i < t.len() && t[i] == '(' {
        let k = ws_run(t, i + 1);
        if i + 1 + k < t.len() && t[i + 1 + k] == ')' {
            k + 2
        } else {
            0
        }
    } else {
        0
    }
}

/// Every empty parenthesis pair removed.
pub open spec fn empty_parens_removed(t: Seq<char>) -> Seq<char> {
    scan_from(
        t,
        0,
        |t2: Seq<char>, i2: int| empty_parens_match(t2, i2),
        |t2: Seq<char>, i2: int| empty_rep(t2, i2),
    )
}

/// Match of a repeated comma: `,`, optional whitespace, `,`.
pub open spec fn comma_match(t: Seq<char>, i: int) -> int {
    if 0 <= i < t.len() && t[i] == ',' {
        let k = ws_run(t, i + 1);
        if i + 1 + k < t.len() && t[i + 1 + k] == ',' {
            k + 2
        } else {
            0
        }
    } else {
        0
    }
}

/// The replacement for a repeated comma: a comma and a space.
pub open spec fn comma_rep(t: Seq<char>, i: int) -> Seq<char> {
    seq![',', ' ']
}

/// Every repeated comma collapsed to a comma and a space.
pub open spec fn commas_collapsed(t: Seq<char>) -> Seq<char> {
    scan_from(
        t,
        0,
        |t2: Seq<char>, i2: int| comma_match(t2, i2),
        |t2: Seq<char>, i2: int| comma_rep(t2, i2),
    )
}

/// Match of a single parenthesis character.
pub open spec fn paren_match(t: Seq<char>, i: int) -> int {
    if 0 <= i < t.len() && (t[i] == '(' || t[i] == ')') {
        1
    } else {
        0
    }
}

/// Every parenthesis character removed.
pub open spec fn parens_removed(t: Seq<char>) -> Seq<char> {
    scan_from(
        t,
        0,
        |t2: Seq<char>, i2: int| paren_match(t2, i2),
        |t2: Seq<char>, i2: int| empty_rep(t2, i2),
    )
}

/// Match of a number before a hyphenated word: at a word boundary, digits,
/// one whitespace, a hyphen, one whitespace, then a word.
pub open spec fn num_hyphen_match(t: Seq<char>, i: int) -> int {
    if (i == 0 || (0 <= i - 1 < t.len() && !is_word(t[i - 1]))) {
        let a = digit_run(t, i);
        if a >= 1 && i + a + 2 < t.len() && is_ws(t[i + a]) && t[i + a + 1] == '-' && is_ws(
            t[i + a + 2],
        ) {
            let w = word_run(t, i + a + 3);
            if w >= 1 {
                a + 3 + w
            } else {
                0
            }
        } else {
            0
        }
    } else {
        0
    }
}

/// The replacement keeps the hyphenated word and drops the number.
pub open spec fn num_hyphen_rep(t: Seq<char>, i: int) -> Seq<char> {
    let a = digit_run(t, i);
    let w = word_run(t, i + a + 3);
    t.subrange(i + a, i + a + 3 + w)
}

/// Every number standing before a hyphenated word dropped, the hyphenated
/// word kept.
pub open spec fn num_hyphen_stripped(t: Seq<char>) -> Seq<char> {
    scan_from(
        t,
        0,
        |t2: Seq<char>, i2: int| num_hyphen_match(t2, i2),
        |t2: Seq<char>, i2: int| num_hyphen_rep(t2, i2),
    )
}

/// Match of a chapter reference: the literal `Kap.`, optional whitespace,
/// digits.
pub open spec fn kap_match(t: Seq<char>, i: int) -> int {
    if spec_has_at(t, i, seq!['K', 'a', 'p', '.']) {
        let k = ws_run(t, i + 4);
        let d = digit_run(t, i + 4 + k);
        if d >= 1 {
            4 + k + d
        } else {
            0
        }
    } else {
        0
    }
}

/// Every chapter reference removed.
pub open spec fn kap_removed(t: Seq<char>) -> Seq<char> {
    scan_from(
        t,
        0,
        |t2: Seq<char>, i2: int| kap_match(t2, i2),
        |t2: Seq<char>, i2: int| empty_rep(t2, i2),
    )
}

/// Match of a day reference: the literal `Tag `, then digits.
pub open spec fn tag_match(t: Seq<char>, i: int) -> int {
    if spec_has_at(t, i, seq!['T', 'a', 'g', ' ']) {
        let d = digit_run(t, i + 4);
        if d >= 1 {
            4 + d
        } else {
            0
        }
    } else {
        0
    }
}

/// Every day reference removed.
pub open spec fn tag_removed(t: Seq<char>) -> Seq<char> {
    scan_from(
        t,
        0,
        |t2: Seq<char>, i2: int| tag_match(t2, i2),
        |t2: Seq<char>, i2: int| empty_rep(t2, i2),
    )
}

/// Match of the tail of a slide-range phrase from position `j` on: one
/// whitespace, digits, one whitespace, `Folien`, one whitespace, digits,
/// one whitespace, `bis`, one whitespace, digits, ending at a word
/// boundary.  Yields the length of the tail, or `0`.
pub open spec fn folien_tail(t: Seq<char>, j: int) -> int {
    if 0 <= j < t.len() && is_ws(t[j]) {
        let d2 = digit_run(t, j + 1);
        let p = j + 1 + d2;
        if d2 >= 1 && p < t.len() && is_ws(t[p]) && spec_has_at(
            t,
            p + 1,
            seq!['F', 'o', 'l', 'i', 'e', 'n'],
        ) {
            let q = p + 7;
            if q < t.len() && is_ws(t[q]) {
                let d3 = digit_run(t, q + 1);
                let s = q + 1 + d3;
                if d3 >= 1 && s < t.len() && is_ws(t[s]) && spec_has_at(t, s + 1, seq!['b', 'i', 's'])
                    && s + 4 < t.len() && is_ws(t[s + 4]) {
                    let d4 = digit_run(t, s + 5);
                    let e = s + 5 + d4;
                    if d4 >= 1 && (e == t.len() || !is_word(t[e])) {
                        e - j
                    } else {
                        0
                    }
                } else {
                    0
                }
            } else {
                0
            }
        } else {
            0
        }
    } else {
        0
    }
}

/// Match of the style-module slide-range phrase: at a word boundary,
/// digits, one whitespace, `CSS_Teil`, then the slide-range tail.
pub open spec fn css_folien_match(t: Seq<char>, i: int) -> int {
    if (i == 0 || (0 <= i - 1 < t.len() && !is_word(t[i - 1]))) {
        let a = digit_run(t, i);
        if a >= 1 && i + a < t.len() && is_ws(t[i + a]) && spec_has_at(
            t,
            i + a + 1,
            seq!['C', 'S', 'S', '_', 'T', 'e', 'i', 'l'],
        ) {
            let k = folien_tail(t, i + a + 9);
            if k >= 1 {
                a + 9 + k
            } else {
                0
            }
        } else {
            0
        }
    } else {
        0
    }
}

/// Every style-module slide-range phrase removed.
pub open spec fn css_folien_removed(t: Seq<char>) -> Seq<char> {
    scan_from(
        t,
        0,
        |t2: Seq<char>, i2: int| css_folien_match(t2, i2),
        |t2: Seq<char>, i2: int| empty_rep(t2, i2),
    )
}

/// Match of the markup-module slide-range phrase: at a word boundary,
/// `HTML_Teil`, then the slide-range tail.
pub open spec fn html_folien_match(t: Seq<char>, i: int) -> int {
    if (i == 0 || (0 <= i - 1 < t.len() && !is_word(t[i - 1]))) && spec_has_at(
        t,
        i,
        seq!['H', 'T', 'M', 'L', '_', 'T', 'e', 'i', 'l'],
    ) {
        let k = folien_tail(t, i + 9);
        if k >= 1 {
            9 + k
        } else {
            0
        }
    } else {
        0
    }
}

/// Every markup-module slide-range phrase removed.
pub open spec fn html_folien_removed(t: Seq<char>) -> Seq<char> {
    scan_from(
        t,
        0,
        |t2: Seq<char>, i2: int| html_folien_match(t2, i2),
        |t2: Seq<char>, i2: int| empty_rep(t2, i2),
    )
}

/// Executable check for `ws_two_match`.
fn ws_two_match_at(t: &Vec<char>, i: usize) -> (l: usize)
    requires
        i < t@.len(),
    ensures
        l == ws_two_match(t@, i as int),
        i + l <= t@.len(),
{
    let bound = t.len();
    assert(bound == t@.len());
    let k = ws_run_at(t, i);
    if k >= 2 {
        k
    } else {
        0
    }
}

/// Executable check for `dots_match`.
fn dots_match_at(t: &Vec<char>, i: usize) -> (l: usize)
    requires
        i < t@.len(),
    ensures
        l == dots_match(t@, i as int),
        i + l <= t@.len(),
{
    let bound = t.len();
    assert(bound == t@.len());
    let k = char_run_at(t, i, '.');
    if k >= 3 {
        k
    } else {
        0
    }
}

/// Executable check for `triple_num_match`.
fn triple_num_match_at(t: &Vec<char>, i: usize) -> (l: usize)
    requires
        i < t@.len(),
    ensures
        l == triple_num_match(t@, i as int),
        i + l <= t@.len(),
{
    let bound = t.len();
    assert(bound == t@.len());
    let a = digit_run_at(t, i);
    if a >= 1 && i + a < t.len() && t[i + a] == '.' {
        let b = digit_run_at(t, i + a + 1);
        if b >= 1 && i + a + 1 + b < t.len() && t[i + a + 1 + b] == '.' {
            let c = digit_run_at(t, i + a + 1 + b + 1);
            if c >= 1 {
                a + 1 + b + 1 + c
            } else {
                0
            }
        } else {
            0
        }
    } else {
        0
    }
}

/// Executable check for `pair_num_match`.
fn pair_num_match_at(t: &Vec<char>, i: usize) -> (l: usize)
    requires
        i < t@.len(),
    ensures
        l == pair_num_match(t@, i as int),
        i + l <= t@.len(),
{
    let bound = t.len();
    assert(bound == t@.len());
    let a = digit_run_at(t, i);
    if a >= 1 && i + a < t.len() && t[i + a] == '.' {
        let b = digit_run_at(t, i + a + 1);
        if b >= 1 {
            a + 1 + b
        } else {
            0
        }
    } else {
        0
    }
}

/// Executable check for `empty_parens_match`.
fn empty_parens_match_at(t: &Vec<char>, i: usize) -> (l: usize)
    requires
        i < t@.len(),
    ensures
        l == empty_parens_match(t@, i as int),
        i + l <= t@.len(),
{
    let bound = t.len();
    assert(bound == t@.len());
    if t[i] == '(' {
        let k = ws_run_at(t, i + 1);
        if i + 1 + k < t.len() && t[i + 1 + k] == ')' {
            k + 2
        } else {
            0
        }
    } else {
        0
    }
}

/// Executable check for `comma_match`.
fn comma_match_at(t: &Vec<char>, i: usize) -> (l: usize)
    requires
        i < t@.len(),
    ensures
        l == comma_match(t@, i as int),
        i + l <= t@.len(),
{
    let bound = t.len();
    assert(bound == t@.len());
    if t[i] == ',' {
        let k = ws_run_at(t, i + 1);
        if i + 1 + k < t.len() && t[i + 1 + k] == ',' {
            k + 2
        } else {
            0
        }
    } else {
        0
    }
}

/// Executable check for `paren_match`.
fn paren_match_at(t: &Vec<char>, i: usize) -> (l: usize)
    requires
        i < t@.len(),
    ensures
        l == paren_match(t@, i as int),
        i + l <= t@.len(),
{
    let bound = t.len();
    assert(bound == t@.len());
    if t[i] == '(' || t[i] == ')' {
        1
    } else {
        0
    }
}

/// Executable check for `num_hyphen_match`.
fn num_hyphen_match_at(t: &Vec<char>, i: usize) -> (l: usize)
    requires
        i < t@.len(),
    ensures
        l == num_hyphen_match(t@, i as int),
        i + l <= t@.len(),
{
    let bound = t.len();
    assert(bound == t@.len());
    if i > 0 && word_char(t[i - 1]) {
        return 0;
    }
    let a = digit_run_at(t, i);
    if a >= 1 && bound - (i + a) > 2 && ws_char(t[i + a]) && t[i + a + 1] == '-' && ws_char(
        t[i + a + 2],
    ) {
        let w = word_run_at(t, i + a + 3);
        if w >= 1 {
            a + 3 + w
        } else {
            0
        }
    } else {
        0
    }
}

/// Executable form of `num_hyphen_rep` for a matched position.
fn num_hyphen_rep_at(t: &Vec<char>, i: usize) -> (out: Vec<char>)
    requires
        i < t@.len(),
        num_hyphen_match(t@, i as int) >= 1,
    ensures
        out@ == num_hyphen_rep(t@, i as int),
{
    let bound = t.len();
    assert(bound == t@.len());
    let a = digit_run_at(t, i);
    assert(i + a + 2 < t@.len());
    let w = word_run_at(t, i + a + 3);
    subrange_vec(t, i + a, i + a + 3 + w)
}

/// Executable check for `kap_match`.
fn kap_match_at(t: &Vec<char>, i: usize) -> (l: usize)
    requires
        i < t@.len(),
    ensures
        l == kap_match(t@, i as int),
        i + l <= t@.len(),
{
    let bound = t.len();
    assert(bound == t@.len());
    let mut p: Vec<char> = Vec::new();
    p.push('K');
    p.push('a');
    p.push('p');
    p.push('.');
    assert(p@ =~= seq!['K', 'a', 'p', '.']);
    if has_at(t, i, &p) {
        let k = ws_run_at(t, i + 4);
        let d = digit_run_at(t, i + 4 + k);
        if d >= 1 {
            4 + k + d
        } else {
            0
        }
    } else {
        0
    }
}

/// Executable check for `tag_match`.
fn tag_match_at(t: &Vec<char>, i: usize) -> (l: usize)
    requires
        i < t@.len(),
    ensures
        l == tag_match(t@, i as int),
        i + l <= t@.len(),
{
    let bound = t.len();
    assert(bound == t@.len());
    let mut p: Vec<char> = Vec::new();
    p.push('T');
    p.push('a');
    p.push('g');
    p.push(' ');
    assert(p@ =~= seq!['T', 'a', 'g', ' ']);
    if has_at(t, i, &p) {
        let d = digit_run_at(t, i + 4);
        if d >= 1 {
            4 + d
        } else {
            0
        }
    } else {
        0
    }
}

/// Executable check for `folien_tail`.
fn folien_tail_at(t: &Vec<char>, j: usize) -> (l: usize)
    requires
        j <= t@.len(),
    ensures
        l == folien_tail(t@, j as int),
        j + l <= t@.len(),
{
    let bound = t.len();
    assert(bound == t@.len());
    if j >= t.len() || !ws_char(t[j]) {
        return 0;
    }
    let d2 = digit_run_at(t, j + 1);
    let p = j + 1 + d2;
    let mut folien: Vec<char> = Vec::new();
    folien.push('F');
    folien.push('o');
    folien.push('l');
    folien.push('i');
    folien.push('e');
    folien.push('n');
    assert(folien@ =~= seq!['F', 'o', 'l', 'i', 'e', 'n']);
    if !(d2 >= 1 && p < t.len() && ws_char(t[p]) && has_at(t, p + 1, &folien)) {
        return 0;
    }
    let q = p + 7;
    if !(q < t.len() && ws_char(t[q])) {
        return 0;
    }
    let d3 = digit_run_at(t, q + 1);
    let s = q + 1 + d3;
    let mut bis: Vec<char> = Vec::new();
    bis.push('b');
    bis.push('i');
    bis.push('s');
    assert(bis@ =~= seq!['b', 'i', 's']);
    if !(d3 >= 1 && s < t.len() && ws_char(t[s]) && has_at(t, s + 1, &bis) && s + 4 < t.len()
        && ws_char(t[s + 4])) {
        return 0;
    }
    let d4 = digit_run_at(t, s + 5);
    let e = s + 5 + d4;
    if d4 >= 1 && (e == t.len() || !word_char(t[e])) {
        e - j
    } else {
        0
    }
}

/// Executable check for `css_folien_match`.
fn css_folien_match_at(t: &Vec<char>, i: usize) -> (l: usize)
    requires
        i < t@.len(),
    ensures
        l == css_folien_match(t@, i as int),
        i + l <= t@.len(),
{
    let bound = t.len();
    assert(bound == t@.len());
    if i > 0 && word_char(t[i - 1]) {
        return 0;
    }
    let a = digit_run_at(t, i);
    let mut css: Vec<char> = Vec::new();
    css.push('C');
    css.push('S');
    css.push('S');
    css.push('_');
    css.push('T');
    css.push('e');
    css.push('i');
    css.push('l');
    assert(css@ =~= seq!['C', 'S', 'S', '_', 'T', 'e', 'i', 'l']);
    if a >= 1 && i + a < t.len() && ws_char(t[i + a]) && has_at(t, i + a + 1, &css) {
        let k = folien_tail_at(t, i + a + 9);
        if k >= 1 {
            a + 9 + k
        } else {
            0
        }
    } else {
        0
    }
}

/// Executable check for `html_folien_match`.
fn html_folien_match_at(t: &Vec<char>, i: usize) -> (l: usize)
    requires
        i < t@.len(),
    ensures
        l == html_folien_match(t@, i as int),
        i + l <= t@.len(),
{
    let bound = t.len();
    assert(bound == t@.len());
    if i > 0 && word_char(t[i - 1]) {
        return 0;
    }
    let mut html: Vec<char> = Vec::new();
    html.push('H');
    html.push('T');
    html.push('M');
    html.push('L');
    html.push('_');
    html.push('T');
    html.push('e');
    html.push('i');
    html.push('l');
    assert(html@ =~= seq!['H', 'T', 'M', 'L', '_', 'T', 'e', 'i', 'l']);
    if has_at(t, i, &html) {
        let k = folien_tail_at(t, i + 9);
        if k >= 1 {
            9 + k
        } else {
            0
        }
    } else {
        0
    }
}

/// Executable form of `ws_two_collapsed`.
pub fn collapse_ws2(t: &Vec<char>) -> (out: Vec<char>)
    ensures
        out@ == ws_two_collapsed(t@),
{
    let ghost m = |t2: Seq<char>, i2: int| ws_two_match(t2, i2);
    let ghost r = |t2: Seq<char>, i2: int| space_rep(t2, i2);
    let mut out: Vec<char> = Vec::new();
    let mut i: usize = 0;
    let n = t.len();
    assert(out@ + scan_from(t@, 0, m, r) =~= scan_from(t@, 0, m, r));
    while i < n
        invariant
            i <= n,
            n == t@.len(),
            ws_two_collapsed(t@) == out@ + scan_from(t@, i as int, m, r),
            m == (|t2: Seq<char>, i2: int| ws_two_match(t2, i2)),
            r == (|t2: Seq<char>, i2: int| space_rep(t2, i2)),
        decreases n - i,
    {
        let ghost out0 = out@;
        let ghost i0 = i;
        let l = ws_two_match_at(t, i);
        proof {
            assert(m(t@, i as int) == ws_two_match(t@, i as int));
            assert(r(t@, i as int) == space_rep(t@, i as int));
        }
        if l >= 1 {
            out.push(' ');
            i = i + l;
            proof {
                assert(scan_from(t@, i0 as int, m, r) == seq![' '] + scan_from(
                    t@,
                    i as int,
                    m,
                    r,
                ));
                assert((out0 + seq![' ']) + scan_from(t@, i as int, m, r) =~= out0 + (
                seq![' '] + scan_from(t@, i as int, m, r)));
            }
        } else {
            out.push(t[i]);
            i = i + 1;
            proof {
                assert(scan_from(t@, i0 as int, m, r) == seq![t@[i0 as int]] + scan_from(
                    t@,
                    i as int,
                    m,
                    r,
                ));
                assert((out0 + seq![t@[i0 as int]]) + scan_from(t@, i as int, m, r) =~= out0 + (
                seq![t@[i0 as int]] + scan_from(t@, i as int, m, r)));
            }
        }
    }
    out
}

/// Executable form of `dots_removed`.
pub fn remove_dots(t: &Vec<char>) -> (out: Vec<char>)
    ensures
        out@ == dots_removed(t@),
{
    let ghost m = |t2: Seq<char>, i2: int| dots_match(t2, i2);
    let ghost r = |t2: Seq<char>, i2: int| empty_rep(t2, i2);
    let mut out: Vec<char> = Vec::new();
    let mut i: usize = 0;
    let n = t.len();
    assert(out@ + scan_from(t@, 0, m, r) =~= scan_from(t@, 0, m, r));
    while i < n
        invariant
            i <= n,
            n == t@.len(),
            dots_removed(t@) == out@ + scan_from(t@, i as int, m, r),
            m == (|t2: Seq<char>, i2: int| dots_match(t2, i2)),
            r == (|t2: Seq<char>, i2: int| empty_rep(t2, i2)),
        decreases n - i,
    {
        let ghost out0 = out@;
        let ghost i0 = i;
        let l = dots_match_at(t, i);
        proof {
            assert(m(t@, i as int) == dots_match(t@, i as int));
            assert(r(t@, i as int) == empty_rep(t@, i as int));
        }
        if l >= 1 {

            i = i + l;
            proof {
                assert(scan_from(t@, i0 as int, m, r) == Seq::<char>::empty() + scan_from(
                    t@,
                    i as int,
                    m,
                    r,
                ));
                assert(out0 + Seq::<char>::empty() =~= out0);
                assert((out0 + Seq::<char>::empty()) + scan_from(t@, i as int, m, r) =~= out0 + (
                Seq::<char>::empty() + scan_from(t@, i as int, m, r)));
            }
        } else {
            out.push(t[i]);
            i = i + 1;
            proof {
                assert(scan_from(t@, i0 as int, m, r) == seq![t@[i0 as int]] + scan_from(
                    t@,
                    i as int,
                    m,
                    r,
                ));
                assert((out0 + seq![t@[i0 as int]]) + scan_from(t@, i as int, m, r) =~= out0 + (
                seq![t@[i0 as int]] + scan_from(t@, i as int, m, r)));
            }
        }
    }
    out
}

/// Executable form of `triple_num_removed`.
pub fn remove_triple_num(t: &Vec<char>) -> (out: Vec<char>)
    ensures
        out@ == triple_num_removed(t@),
{
    let ghost m = |t2: Seq<char>, i2: int| triple_num_match(t2, i2);
    let ghost r = |t2: Seq<char>, i2: int| empty_rep(t2, i2);
    let mut out: Vec<char> = Vec::new();
    let mut i: usize = 0;
    let n = t.len();
    assert(out@ + scan_from(t@, 0, m, r) =~= scan_from(t@, 0, m, r));
    while i < n
        invariant
            i <= n,
            n == t@.len(),
            triple_num_removed(t@) == out@ + scan_from(t@, i as int, m, r),
            m == (|t2: Seq<char>, i2: int| triple_num_match(t2, i2)),
            r == (|t2: Seq<char>, i2: int| empty_rep(t2, i2)),
        decreases n - i,
    {
        let ghost out0 = out@;
        let ghost i0 = i;
        let l = triple_num_match_at(t, i);
        proof {
            assert(m(t@, i as int) == triple_num_match(t@, i as int));
            assert(r(t@, i as int) == empty_rep(t@, i as int));
        }
        if l >= 1 {

            i = i + l;
            proof {
                assert(scan_from(t@, i0 as int, m, r) == Seq::<char>::empty() + scan_from(
                    t@,
                    i as int,
                    m,
                    r,
                ));
                assert(out0 + Seq::<char>::empty() =~= out0);
                assert((out0 + Seq::<char>::empty()) + scan_from(t@, i as int, m, r) =~= out0 + (
                Seq::<char>::empty() + scan_from(t@, i as int, m, r)));
            }
        } else {
            out.push(t[i]);
            i = i + 1;
            proof {
                assert(scan_from(t@, i0 as int, m, r) == seq![t@[i0 as int]] + scan_from(
                    t@,
                    i as int,
                    m,
                    r,
                ));
                assert((out0 + seq![t@[i0 as int]]) + scan_from(t@, i as int, m, r) =~= out0 + (
                seq![t@[i0 as int]] + scan_from(t@, i as int, m, r)));
            }
        }
    }
    out
}

/// Executable form of `pair_num_removed`.
pub fn remove_pair_num(t: &Vec<char>) -> (out: Vec<char>)
    ensures
        out@ == pair_num_removed(t@),
{
    let ghost m = |t2: Seq<char>, i2: int| pair_num_match(t2, i2);
    let ghost r = |t2: Seq<char>, i2: int| empty_rep(t2, i2);
    let mut out: Vec<char> = Vec::new();
    let mut i: usize = 0;
    let n = t.len();
    assert(out@ + scan_from(t@, 0, m, r) =~= scan_from(t@, 0, m, r));
    while i < n
        invariant
            i <= n,
            n == t@.len(),
            pair_num_removed(t@) == out@ + scan_from(t@, i as int, m, r),
            m == (|t2: Seq<char>, i2: int| pair_num_match(t2, i2)),
            r == (|t2: Seq<char>, i2: int| empty_rep(t2, i2)),
        decreases n - i,
    {
        let ghost out0 = out@;
        let ghost i0 = i;
        let l = pair_num_match_at(t, i);
        proof {
            assert(m(t@, i as int) == pair_num_match(t@, i as int));
            assert(r(t@, i as int) == empty_rep(t@, i as int));
        }
        if l >= 1 {

            i = i + l;
            proof {
                assert(scan_from(t@, i0 as int, m, r) == Seq::<char>::empty() + scan_from(
                    t@,
                    i as int,
                    m,
                    r,
                ));
                assert(out0 + Seq::<char>::empty() =~= out0);
                assert((out0 + Seq::<char>::empty()) + scan_from(t@, i as int, m, r) =~= out0 + (
                Seq::<char>::empty() + scan_from(t@, i as int, m, r)));
            }
        } else {
            out.push(t[i]);
            i = i + 1;
            proof {
                assert(scan_from(t@, i0 as int, m, r) == seq![t@[i0 as int]] + scan_from(
                    t@,
                    i as int,
                    m,
                    r,
                ));
                assert((out0 + seq![t@[i0 as int]]) + scan_from(t@, i as int, m, r) =~= out0 + (
                seq![t@[i0 as int]] + scan_from(t@, i as int, m, r)));
            }
        }
    }
    out
}

/// Executable form of `empty_parens_removed`.
pub fn remove_empty_parens(t: &Vec<char>) -> (out: Vec<char>)
    ensures
        out@ == empty_parens_removed(t@),
{
    let ghost m = |t2: Seq<char>, i2: int| empty_parens_match(t2, i2);
    let ghost r = |t2: Seq<char>, i2: int| empty_rep(t2, i2);
    let mut out: Vec<char> = Vec::new();
    let mut i: usize = 0;
    let n = t.len();
    assert(out@ + scan_from(t@, 0, m, r) =~= scan_from(t@, 0, m, r));
    while i < n
        invariant
            i <= n,
            n == t@.len(),
            empty_parens_removed(t@) == out@ + scan_from(t@, i as int, m, r),
            m == (|t2: Seq<char>, i2: int| empty_parens_match(t2, i2)),
            r == (|t2: Seq<char>, i2: int| empty_rep(t2, i2)),
        decreases n - i,
    {
        let ghost out0 = out@;
        let ghost i0 = i;
        let l = empty_parens_match_at(t, i);
        proof {
            assert(m(t@, i as int) == empty_parens_match(t@, i as int));
            assert(r(t@, i as int) == empty_rep(t@, i as int));
        }
        if l >= 1 {

            i = i + l;
            proof {
                assert(scan_from(t@, i0 as int, m, r) == Seq::<char>::empty() + scan_from(
                    t@,
                    i as int,
                    m,
                    r,
                ));
                assert(out0 + Seq::<char>::empty() =~= out0);
                assert((out0 + Seq::<char>::empty()) + scan_from(t@, i as int, m, r) =~= out0 + (
                Seq::<char>::empty() + scan_from(t@, i as int, m, r)));
            }
        } else {
            out.push(t[i]);
            i = i + 1;
            proof {
                assert(scan_from(t@, i0 as int, m, r) == seq![t@[i0 as int]] + scan_from(
                    t@,
                    i as int,
                    m,
                    r,
                ));
                assert((out0 + seq![t@[i0 as int]]) + scan_from(t@, i as int, m, r) =~= out0 + (
                seq![t@[i0 as int]] + scan_from(t@, i as int, m, r)));
            }
        }
    }
    out
}

/// Executable form of `commas_collapsed`.
pub fn collapse_commas(t: &Vec<char>) -> (out: Vec<char>)
    ensures
        out@ == commas_collapsed(t@),
{
    let ghost m = |t2: Seq<char>, i2: int| comma_match(t2, i2);
    let ghost r = |t2: Seq<char>, i2: int| comma_rep(t2, i2);
    let mut out: Vec<char> = Vec::new();
    let mut i: usize = 0;
    let n = t.len();
    assert(out@ + scan_from(t@, 0, m, r) =~= scan_from(t@, 0, m, r));
    while i < n
        invariant
            i <= n,
            n == t@.len(),
            commas_collapsed(t@) == out@ + scan_from(t@, i as int, m, r),
            m == (|t2: Seq<char>, i2: int| comma_match(t2, i2)),
            r == (|t2: Seq<char>, i2: int| comma_rep(t2, i2)),
        decreases n - i,
    {
        let ghost out0 = out@;
        let ghost i0 = i;
        let l = comma_match_at(t, i);
        proof {
            assert(m(t@, i as int) == comma_match(t@, i as int));
            assert(r(t@, i as int) == comma_rep(t@, i as int));
        }
        if l >= 1 {
            out.push(',');
            out.push(' ');
            i = i + l;
            proof {
                assert(scan_from(t@, i0 as int, m, r) == seq![',', ' '] + scan_from(
                    t@,
                    i as int,
                    m,
                    r,
                ));
                assert(out@ =~= out0 + seq![',', ' ']);
                assert((out0 + seq![',', ' ']) + scan_from(t@, i as int, m, r) =~= out0 + (
                seq![',', ' '] + scan_from(t@, i as int, m, r)));
            }
        } else {
            out.push(t[i]);
            i = i + 1;
            proof {
                assert(scan_from(t@, i0 as int, m, r) == seq![t@[i0 as int]] + scan_from(
                    t@,
                    i as int,
                    m,
                    r,
                ));
                assert((out0 + seq![t@[i0 as int]]) + scan_from(t@, i as int, m, r) =~= out0 + (
                seq![t@[i0 as int]] + scan_from(t@, i as int, m, r)));
            }
        }
    }
    out
}

/// Executable form of `parens_removed`.
pub fn remove_paren_chars(t: &Vec<char>) -> (out: Vec<char>)
    ensures
        out@ == parens_removed(t@),
{
    let ghost m = |t2: Seq<char>, i2: int| paren_match(t2, i2);
    let ghost r = |t2: Seq<char>, i2: int| empty_rep(t2, i2);
    let mut out: Vec<char> = Vec::new();
    let mut i: usize = 0;
    let n = t.len();
    assert(out@ + scan_from(t@, 0, m, r) =~= scan_from(t@, 0, m, r));
    while i < n
        invariant
            i <= n,
            n == t@.len(),
            parens_removed(t@) == out@ + scan_from(t@, i as int, m, r),
            m == (|t2: Seq<char>, i2: int| paren_match(t2, i2)),
            r == (|t2: Seq<char>, i2: int| empty_rep(t2, i2)),
        decreases n - i,
    {
        let ghost out0 = out@;
        let ghost i0 = i;
        let l = paren_match_at(t, i);
        proof {
            assert(m(t@, i as int) == paren_match(t@, i as int));
            assert(r(t@, i as int) == empty_rep(t@, i as int));
        }
        if l >= 1 {

            i = i + l;
            proof {
                assert(scan_from(t@, i0 as int, m, r) == Seq::<char>::empty() + scan_from(
                    t@,
                    i as int,
                    m,
                    r,
                ));
                assert(out0 + Seq::<char>::empty() =~= out0);
                assert((out0 + Seq::<char>::empty()) + scan_from(t@, i as int, m, r) =~= out0 + (
                Seq::<char>::empty() + scan_from(t@, i as int, m, r)));
            }
        } else {
            out.push(t[i]);
            i = i + 1;
            proof {
                assert(scan_from(t@, i0 as int, m, r) == seq![t@[i0 as int]] + scan_from(
                    t@,
                    i as int,
                    m,
                    r,
                ));
                assert((out0 + seq![t@[i0 as int]]) + scan_from(t@, i as int, m, r) =~= out0 + (
                seq![t@[i0 as int]] + scan_from(t@, i as int, m, r)));
            }
        }
    }
    out
}

/// Executable form of `num_hyphen_stripped`.
pub fn strip_num_hyphen(t: &Vec<char>) -> (out: Vec<char>)
    ensures
        out@ == num_hyphen_stripped(t@),
{
    let ghost m = |t2: Seq<char>, i2: int| num_hyphen_match(t2, i2);
    let ghost r = |t2: Seq<char>, i2: int| num_hyphen_rep(t2, i2);
    let mut out: Vec<char> = Vec::new();
    let mut i: usize = 0;
    let n = t.len();
    assert(out@ + scan_from(t@, 0, m, r) =~= scan_from(t@, 0, m, r));
    while i < n
        invariant
            i <= n,
            n == t@.len(),
            num_hyphen_stripped(t@) == out@ + scan_from(t@, i as int, m, r),
            m == (|t2: Seq<char>, i2: int| num_hyphen_match(t2, i2)),
            r == (|t2: Seq<char>, i2: int| num_hyphen_rep(t2, i2)),
        decreases n - i,
    {
        let ghost out0 = out@;
        let ghost i0 = i;
        let l = num_hyphen_match_at(t, i);
        proof {
            assert(m(t@, i as int) == num_hyphen_match(t@, i as int));
            assert(r(t@, i as int) == num_hyphen_rep(t@, i as int));
        }
        if l >= 1 {
            let rep = num_hyphen_rep_at(t, i);
            push_all(&mut out, &rep);
            i = i + l;
            proof {
                assert(scan_from(t@, i0 as int, m, r) == num_hyphen_rep(t@, i0 as int) + scan_from(
                    t@,
                    i as int,
                    m,
                    r,
                ));
                assert((out0 + num_hyphen_rep(t@, i0 as int)) + scan_from(t@, i as int, m, r) =~= out0 + (
                num_hyphen_rep(t@, i0 as int) + scan_from(t@, i as int, m, r)));
            }
        } else {
            out.push(t[i]);
            i = i + 1;
            proof {
                assert(scan_from(t@, i0 as int, m, r) == seq![t@[i0 as int]] + scan_from(
                    t@,
                    i as int,
                    m,
                    r,
                ));
                assert((out0 + seq![t@[i0 as int]]) + scan_from(t@, i as int, m, r) =~= out0 + (
                seq![t@[i0 as int]] + scan_from(t@, i as int, m, r)));
            }
        }
    }
    out
}

/// Executable form of `kap_removed`.
pub fn remove_kap(t: &Vec<char>) -> (out: Vec<char>)
    ensures
        out@ == kap_removed(t@),
{
    let ghost m = |t2: Seq<char>, i2: int| kap_match(t2, i2);
    let ghost r = |t2: Seq<char>, i2: int| empty_rep(t2, i2);
    let mut out: Vec<char> = Vec::new();
    let mut i: usize = 0;
    let n = t.len();
    assert(out@ + scan_from(t@, 0, m, r) =~= scan_from(t@, 0, m, r));
    while i < n
        invariant
            i <= n,
            n == t@.len(),
            kap_removed(t@) == out@ + scan_from(t@, i as int, m, r),
            m == (|t2: Seq<char>, i2: int| kap_match(t2, i2)),
            r == (|t2: Seq<char>, i2: int| empty_rep(t2, i2)),
        decreases n - i,
    {
        let ghost out0 = out@;
        let ghost i0 = i;
        let l = kap_match_at(t, i);
        proof {
            assert(m(t@, i as int) == kap_match(t@, i as int));
            assert(r(t@, i as int) == empty_rep(t@, i as int));
        }
        if l >= 1 {

            i = i + l;
            proof {
                assert(scan_from(t@, i0 as int, m, r) == Seq::<char>::empty() + scan_from(
                    t@,
                    i as int,
                    m,
                    r,
                ));
                assert(out0 + Seq::<char>::empty() =~= out0);
                assert((out0 + Seq::<char>::empty()) + scan_from(t@, i as int, m, r) =~= out0 + (
                Seq::<char>::empty() + scan_from(t@, i as int, m, r)));
            }
        } else {
            out.push(t[i]);
            i = i + 1;
            proof {
                assert(scan_from(t@, i0 as int, m, r) == seq![t@[i0 as int]] + scan_from(
                    t@,
                    i as int,
                    m,
                    r,
                ));
                assert((out0 + seq![t@[i0 as int]]) + scan_from(t@, i as int, m, r) =~= out0 + (
                seq![t@[i0 as int]] + scan_from(t@, i as int, m, r)));
            }
        }
    }
    out
}

/// Executable form of `tag_removed`.
pub fn remove_tag(t: &Vec<char>) -> (out: Vec<char>)
    ensures
        out@ == tag_removed(t@),
{
    let ghost m = |t2: Seq<char>, i2: int| tag_match(t2, i2);
    let ghost r = |t2: Seq<char>, i2: int| empty_rep(t2, i2);
    let mut out: Vec<char> = Vec::new();
    let mut i: usize = 0;
    let n = t.len();
    assert(out@ + scan_from(t@, 0, m, r) =~= scan_from(t@, 0, m, r));
    while i < n
        invariant
            i <= n,
            n == t@.len(),
            tag_removed(t@) == out@ + scan_from(t@, i as int, m, r),
            m == (|t2: Seq<char>, i2: int| tag_match(t2, i2)),
            r == (|t2: Seq<char>, i2: int| empty_rep(t2, i2)),
        decreases n - i,
    {
        let ghost out0 = out@;
        let ghost i0 = i;
        let l = tag_match_at(t, i);
        proof {
            assert(m(t@, i as int) == tag_match(t@, i as int));
            assert(r(t@, i as int) == empty_rep(t@, i as int));
        }
        if l >= 1 {

            i = i + l;
            proof {
                assert(scan_from(t@, i0 as int, m, r) == Seq::<char>::empty() + scan_from(
                    t@,
                    i as int,
                    m,
                    r,
                ));
                assert(out0 + Seq::<char>::empty() =~= out0);
                assert((out0 + Seq::<char>::empty()) + scan_from(t@, i as int, m, r) =~= out0 + (
                Seq::<char>::empty() + scan_from(t@, i as int, m, r)));
            }
        } else {
            out.push(t[i]);
            i = i + 1;
            proof {
                assert(scan_from(t@, i0 as int, m, r) == seq![t@[i0 as int]] + scan_from(
                    t@,
                    i as int,
                    m,
                    r,
                ));
                assert((out0 + seq![t@[i0 as int]]) + scan_from(t@, i as int, m, r) =~= out0 + (
                seq![t@[i0 as int]] + scan_from(t@, i as int, m, r)));
            }
        }
    }
    out
}

/// Executable form of `css_folien_removed`.
pub fn remove_css_folien(t: &Vec<char>) -> (out: Vec<char>)
    ensures
        out@ == css_folien_removed(t@),
{
    let ghost m = |t2: Seq<char>, i2: int| css_folien_match(t2, i2);
    let ghost r = |t2: Seq<char>, i2: int| empty_rep(t2, i2);
    let mut out: Vec<char> = Vec::new();
    let mut i: usize = 0;
    let n = t.len();
    assert(out@ + scan_from(t@, 0, m, r) =~= scan_from(t@, 0, m, r));
    while i < n
        invariant
            i <= n,
            n == t@.len(),
            css_folien_removed(t@) == out@ + scan_from(t@, i as int, m, r),
            m == (|t2: Seq<char>, i2: int| css_folien_match(t2, i2)),
            r == (|t2: Seq<char>, i2: int| empty_rep(t2, i2)),
        decreases n - i,
    {
        let ghost out0 = out@;
        let ghost i0 = i;
        let l = css_folien_match_at(t, i);
        proof {
            assert(m(t@, i as int) == css_folien_match(t@, i as int));
            assert(r(t@, i as int) == empty_rep(t@, i as int));
        }
        if l >= 1 {

            i = i + l;
            proof {
                assert(scan_from(t@, i0 as int, m, r) == Seq::<char>::empty() + scan_from(
                    t@,
                    i as int,
                    m,
                    r,
                ));
                assert(out0 + Seq::<char>::empty() =~= out0);
                assert((out0 + Seq::<char>::empty()) + scan_from(t@, i as int, m, r) =~= out0 + (
                Seq::<char>::empty() + scan_from(t@, i as int, m, r)));
            }
        } else {
            out.push(t[i]);
            i = i + 1;
            proof {
                assert(scan_from(t@, i0 as int, m, r) == seq![t@[i0 as int]] + scan_from(
                    t@,
                    i as int,
                    m,
                    r,
                ));
                assert((out0 + seq![t@[i0 as int]]) + scan_from(t@, i as int, m, r) =~= out0 + (
                seq![t@[i0 as int]] + scan_from(t@, i as int, m, r)));
            }
        }
    }
    out
}

/// Executable form of `html_folien_removed`.
pub fn remove_html_folien(t: &Vec<char>) -> (out: Vec<char>)
    ensures
        out@ == html_folien_removed(t@),
{
    let ghost m = |t2: Seq<char>, i2: int| html_folien_match(t2, i2);
    let ghost r = |t2: Seq<char>, i2: int| empty_rep(t2, i2);
    let mut out: Vec<char> = Vec::new();
    let mut i: usize = 0;
    let n = t.len();
    assert(out@ + scan_from(t@, 0, m, r) =~= scan_from(t@, 0, m, r));
    while i < n
        invariant
            i <= n,
            n == t@.len(),
            html_folien_removed(t@) == out@ + scan_from(t@, i as int, m, r),
            m == (|t2: Seq<char>, i2: int| html_folien_match(t2, i2)),
            r == (|t2: Seq<char>, i2: int| empty_rep(t2, i2)),
        decreases n - i,
    {
        let ghost out0 = out@;
        let ghost i0 = i;
        let l = html_folien_match_at(t, i);
        proof {
            assert(m(t@, i as int) == html_folien_match(t@, i as int));
            assert(r(t@, i as int) == empty_rep(t@, i as int));
        }
        if l >= 1 {

            i = i + l;
            proof {
                assert(scan_from(t@, i0 as int, m, r) == Seq::<char>::empty() + scan_from(
                    t@,
                    i as int,
                    m,
                    r,
                ));
                assert(out0 + Seq::<char>::empty() =~= out0);
                assert((out0 + Seq::<char>::empty()) + scan_from(t@, i as int, m, r) =~= out0 + (
                Seq::<char>::empty() + scan_from(t@, i as int, m, r)));
            }
        } else {
            out.push(t[i]);
            i = i + 1;
            proof {
                assert(scan_from(t@, i0 as int, m, r) == seq![t@[i0 as int]] + scan_from(
                    t@,
                    i as int,
                    m,
                    r,
                ));
                assert((out0 + seq![t@[i0 as int]]) + scan_from(t@, i as int, m, r) =~= out0 + (
                seq![t@[i0 as int]] + scan_from(t@, i as int, m, r)));
            }
        }
    }
    out
}


/// The leading-dash rule: a leading `- ` (dash and space) or a bare
/// leading `-` removed once.
pub open spec fn dash_stripped(t: Seq<char>) -> Seq<char> {
    if t.len() >= 2 && t[0] == '-' && t[1] == ' ' {
        t.skip(2)
    } else if t.len() >= 1 && t[0] == '-' {
        t.skip(1)
    } else {
        t
    }
}

/// Executable form of `dash_stripped`.
pub fn strip_dash(t: &Vec<char>) -> (out: Vec<char>)
    ensures
        out@ == dash_stripped(t@),
{
    if t.len() >= 2 && t[0] == '-' && t[1] == ' ' {
        subrange_vec(t, 2, t.len())
    } else if t.len() >= 1 && t[0] == '-' {
        subrange_vec(t, 1, t.len())
    } else {
        let out = subrange_vec(t, 0, t.len());
        assert(t@.subrange(0, t@.len() as int) =~= t@);
        out
    }
}

/// The leading day-number rule: a zero-padded day token (`00` to `09`, or
/// `10`) at the very start, ending at a word boundary, removed once.
pub open spec fn day_token_stripped(t: Seq<char>) -> Seq<char> {
    if t.len() >= 2 && ((t[0] == '0' && is_digit(t[1])) || (t[0] == '1' && t[1] == '0')) && (t.len()
        == 2 || !is_word(t[2])) {
        t.skip(2)
    } else {
        t
    }
}

/// Executable form of `day_token_stripped`.
pub fn strip_day_token(t: &Vec<char>) -> (out: Vec<char>)
    ensures
        out@ == day_token_stripped(t@),
{
    if t.len() >= 2 && ((t[0] == '0' && digit_char(t[1])) || (t[0] == '1' && t[1] == '0')) && (
    t.len() == 2 || !word_char(t[2])) {
        subrange_vec(t, 2, t.len())
    } else {
        let out = subrange_vec(t, 0, t.len());
        assert(t@.subrange(0, t@.len() as int) =~= t@);
        out
    }
}

/// The all-punctuation rule: a non-empty string consisting only of
/// collapsible characters (punctuation, separators and digits) reduced to
/// the empty string.
pub open spec fn all_collapsed(t: Seq<char>) -> Seq<char> {
    if t.len() >= 1 && (forall|k: int| 0 <= k < t.len() ==> is_collapsible(t[k])) {
        Seq::<char>::empty()
    } else {
        t
    }
}

/// Executable form of `all_collapsed`.
pub fn collapse_all_punct(t: &Vec<char>) -> (out: Vec<char>)
    ensures
        out@ == all_collapsed(t@),
{
    let n = t.len();
    let mut i: usize = 0;
    let mut all: bool = true;
    while i < n
        invariant
            i <= n,
            n == t@.len(),
            all == (forall|k: int| 0 <= k < i ==> is_collapsible(t@[k])),
        decreases n - i,
    {
        let c = collapsible_char(t[i]);
        all = all && c;
        i = i + 1;
    }
    if n >= 1 && all {
        Vec::new()
    } else {
        let out = subrange_vec(t, 0, t.len());
        assert(t@.subrange(0, t@.len() as int) =~= t@);
        out
    }
}


/// One literal substitution pass over `t`.
fn replace_pass(t: &Vec<char>, p: &str, r: &str) -> (out: Vec<char>)
    ensures
        out@ == replace_lit_spec(t@, p@, r@),
{
    let pv = chars_vec(p);
    let rv = chars_vec(r);
    replace_lit(t, &pv, &rv)
}

/// The first stage of the normalizer: the ordered list of literal
/// phrase-to-phrase substitutions that removes or expands
/// institution-specific jargon.
pub open spec fn jargon_pass(s: Seq<char>) -> Seq<char> {
    let s = replace_lit_spec(s, "1 & 2"@, " "@);
    let s = replace_lit_spec(s, ", 2, 3"@, " "@);
    let s = replace_lit_spec(s, "_Aufg_9_"@, " "@);
    let s = replace_lit_spec(s, "1, Kap."@, " "@);
    let s = replace_lit_spec(s, "Kap."@, " "@);
    let s = replace_lit_spec(s, "-Auf_6-1_Lernsituation-6…"@, " "@);
    let s = replace_lit_spec(s, "_Aufg_7-Kreuzworträtsel relationales Datenmodell…"@, " "@);
    let s = replace_lit_spec(s, "-591_Lehrbuch_Auf_4_"@, " "@);
    let s = replace_lit_spec(s, "-590_Lehrbuch_Auf_2_"@, " "@);
    let s = replace_lit_spec(s, "siehe Übungsdatei 5.1.2_...."@, " "@);
    let s = replace_lit_spec(s, "Einführung, Kap."@, " "@);
    let s = replace_lit_spec(s, "Einzel-/Gruppenarbeit"@, " "@);
    let s = replace_lit_spec(s, "Gruppenarbeit und Besprechung"@, " "@);
    let s = replace_lit_spec(s, "Inhalte:"@, "  "@);
    let s = replace_lit_spec(s, "Tagesinhalte:"@, " "@);
    let s = replace_lit_spec(s, "Übungen:"@, " "@);
    let s = replace_lit_spec(s, "Prüfungen"@, " "@);
    let s = replace_lit_spec(s, "Prüfungen:"@, " "@);
    let s = replace_lit_spec(s, "Handlungsaufgabe:"@, " "@);
    let s = replace_lit_spec(s, "Grammar:"@, " "@);
    let s = replace_lit_spec(s, "IT-Milestone:"@, " "@);
    let s = replace_lit_spec(s, "Your English skills:"@, " "@);
    let s = replace_lit_spec(s, "Communication:"@, " "@);
    let s = replace_lit_spec(s, "Wiederholung des Vortags"@, " "@);
    let s = replace_lit_spec(s, "alles Folienpräsentation"@, " "@);
    let s = replace_lit_spec(s, "Informationen beschaffen und verwerten"@, " "@);
    let s = replace_lit_spec(s, "Lehrgespräche in den folgenden Themen:"@, " "@);
    let s = replace_lit_spec(s, "(Lehrgespräche)"@, " "@);
    let s = replace_lit_spec(s, "EXCEL"@, " "@);
    let s = replace_lit_spec(s, "Lernmethode: Workshop in"@, " "@);
    let s = replace_lit_spec(s, "Praktische Übung:"@, " "@);
    let s = replace_lit_spec(s, "Lernmethoden:"@, " "@);
    let s = replace_lit_spec(s, "Krank"@, "Selbstlernphase"@);
    let s = replace_lit_spec(s, "hemen und Lernziele"@, "Themen und Lernziele"@);
    s
}

/// Executable form of `jargon_pass`.
#[verifier::rlimit(100)]
pub fn apply_jargon_pass(t: &Vec<char>) -> (out: Vec<char>)
    ensures
        out@ == jargon_pass(t@),
{
    let t = replace_pass(t, "1 & 2", " ");
    let t = replace_pass(&t, ", 2, 3", " ");
    let t = replace_pass(&t, "_Aufg_9_", " ");
    let t = replace_pass(&t, "1, Kap.", " ");
    let t = replace_pass(&t, "Kap.", " ");
    let t = replace_pass(&t, "-Auf_6-1_Lernsituation-6…", " ");
    let t = replace_pass(&t, "_Aufg_7-Kreuzworträtsel relationales Datenmodell…", " ");
    let t = replace_pass(&t, "-591_Lehrbuch_Auf_4_", " ");
    let t = replace_pass(&t, "-590_Lehrbuch_Auf_2_", " ");
    let t = replace_pass(&t, "siehe Übungsdatei 5.1.2_....", " ");
    let t = replace_pass(&t, "Einführung, Kap.", " ");
    let t = replace_pass(&t, "Einzel-/Gruppenarbeit", " ");
    let t = replace_pass(&t, "Gruppenarbeit und Besprechung", " ");
    let t = replace_pass(&t, "Inhalte:", "  ");
    let t = replace_pass(&t, "Tagesinhalte:", " ");
    let t = replace_pass(&t, "Übungen:", " ");
    let t = replace_pass(&t, "Prüfungen", " ");
    let t = replace_pass(&t, "Prüfungen:", " ");
    let t = replace_pass(&t, "Handlungsaufgabe:", " ");
    let t = replace_pass(&t, "Grammar:", " ");
    let t = replace_pass(&t, "IT-Milestone:", " ");
    let t = replace_pass(&t, "Your English skills:", " ");
    let t = replace_pass(&t, "Communication:", " ");
    let t = replace_pass(&t, "Wiederholung des Vortags", " ");
    let t = replace_pass(&t, "alles Folienpräsentation", " ");
    let t = replace_pass(&t, "Informationen beschaffen und verwerten", " ");
    let t = replace_pass(&t, "Lehrgespräche in den folgenden Themen:", " ");
    let t = replace_pass(&t, "(Lehrgespräche)", " ");
    let t = replace_pass(&t, "EXCEL", " ");
    let t = replace_pass(&t, "Lernmethode: Workshop in", " ");
    let t = replace_pass(&t, "Praktische Übung:", " ");
    let t = replace_pass(&t, "Lernmethoden:", " ");
    let t = replace_pass(&t, "Krank", "Selbstlernphase");
    let t = replace_pass(&t, "hemen und Lernziele", "Themen und Lernziele");
    t
}

/// The second stage of the normalizer: the ordered list of literal
/// whitespace and punctuation substitutions.
pub open spec fn punct_pass(s: Seq<char>) -> Seq<char> {
    let s = replace_lit_spec(s, "\t"@, " "@);
    let s = replace_lit_spec(s, "\n"@, " "@);
    let s = replace_lit_spec(s, " , "@, ", "@);
    let s = replace_lit_spec(s, " +"@, " "@);
    let s = replace_lit_spec(s, "--"@, "-"@);
    let s = replace_lit_spec(s, "- -"@, "-"@);
    let s = replace_lit_spec(s, " :"@, ": "@);
    let s = replace_lit_spec(s, ":-"@, ": -"@);
    s
}

/// Executable form of `punct_pass`.
#[verifier::rlimit(100)]
pub fn apply_punct_pass(t: &Vec<char>) -> (out: Vec<char>)
    ensures
        out@ == punct_pass(t@),
{
    let t = replace_pass(t, "\t", " ");
    let t = replace_pass(&t, "\n", " ");
    let t = replace_pass(&t, " , ", ", ");
    let t = replace_pass(&t, " +", " ");
    let t = replace_pass(&t, "--", "-");
    let t = replace_pass(&t, "- -", "-");
    let t = replace_pass(&t, " :", ": ");
    let t = replace_pass(&t, ":-", ": -");
    t
}

/// The third stage of the normalizer: the ordered pattern rules.
pub open spec fn pattern_pass(s: Seq<char>) -> Seq<char> {
    let s = num_hyphen_stripped(s);
    let s = ws_collapsed(s);
    let s = ws_two_collapsed(s);
    let s = triple_num_removed(s);
    let s = dots_removed(s);
    let s = empty_parens_removed(s);
    let s = commas_collapsed(s);
    let s = strip_suffix_spec(s, seq![',']);
    let s = pair_num_removed(s);
    let s = parens_removed(s);
    let s = all_collapsed(s);
    let s = strip_prefix_spec(s, seq!['o', ' ']);
    let s = strip_prefix_spec(s, seq!['§', ' ']);
    let s = dash_stripped(s);
    let s = strip_prefix_spec(s, seq!['·', ' ']);
    let s = strip_suffix_spec(s, seq!['[']);
    let s = day_token_stripped(s);
    let s = strip_prefix_spec(s, seq![':', ' ']);
    let s = strip_suffix_spec(s, seq!['.']);
    s
}

/// Executable form of `pattern_pass`.
pub fn apply_pattern_pass(t: &Vec<char>) -> (out: Vec<char>)
    ensures
        out@ == pattern_pass(t@),
{
    let t = strip_num_hyphen(t);
    let t = collapse_ws(&t);
    let t = collapse_ws2(&t);
    let t = remove_triple_num(&t);
    let t = remove_dots(&t);
    let t = remove_empty_parens(&t);
    let t = collapse_commas(&t);
    let mut comma: Vec<char> = Vec::new();
    comma.push(',');
    assert(comma@ =~= seq![',']);
    let t = strip_suffix_vec(&t, &comma);
    let t = remove_pair_num(&t);
    let t = remove_paren_chars(&t);
    let t = collapse_all_punct(&t);
    let mut o_sp: Vec<char> = Vec::new();
    o_sp.push('o');
    o_sp.push(' ');
    assert(o_sp@ =~= seq!['o', ' ']);
    let t = strip_prefix_vec(&t, &o_sp);
    let mut sect: Vec<char> = Vec::new();
    sect.push('§');
    sect.push(' ');
    assert(sect@ =~= seq!['§', ' ']);
    let t = strip_prefix_vec(&t, &sect);
    let t = strip_dash(&t);
    let mut bullet: Vec<char> = Vec::new();
    bullet.push('·');
    bullet.push(' ');
    assert(bullet@ =~= seq!['·', ' ']);
    let t = strip_prefix_vec(&t, &bullet);
    let mut bracket: Vec<char> = Vec::new();
    bracket.push('[');
    assert(bracket@ =~= seq!['[']);
    let t = strip_suffix_vec(&t, &bracket);
    let t = strip_day_token(&t);
    let mut colon: Vec<char> = Vec::new();
    colon.push(':');
    colon.push(' ');
    assert(colon@ =~= seq![':', ' ']);
    let t = strip_prefix_vec(&t, &colon);
    let mut dot: Vec<char> = Vec::new();
    dot.push('.');
    assert(dot@ =~= seq!['.']);
    let t = strip_suffix_vec(&t, &dot);
    t
}

/// The fourth stage of the normalizer: boilerplate pattern removal, with
/// the style-module pass deliberately applied twice, and the explicit
/// zero-padded day literals last.
pub open spec fn boilerplate_pass(s: Seq<char>) -> Seq<char> {
    let s = kap_removed(s);
    let s = tag_removed(s);
    let s = css_folien_removed(s);
    let s = css_folien_removed(s);
    let s = html_folien_removed(s);
    let s = replace_lit_spec(s, "Tag 01"@, ""@);
    let s = replace_lit_spec(s, "Tag 02"@, ""@);
    let s = replace_lit_spec(s, "Tag 03"@, ""@);
    let s = replace_lit_spec(s, "Tag 04"@, ""@);
    let s = replace_lit_spec(s, "Tag 05"@, ""@);
    let s = replace_lit_spec(s, "Tag 06"@, ""@);
    let s = replace_lit_spec(s, "Tag 07"@, ""@);
    s
}

/// Executable form of `boilerplate_pass`.
pub fn apply_boilerplate_pass(t: &Vec<char>) -> (out: Vec<char>)
    ensures
        out@ == boilerplate_pass(t@),
{
    let t = remove_kap(t);
    let t = remove_tag(&t);
    let t = remove_css_folien(&t);
    let t = remove_css_folien(&t);
    let t = remove_html_folien(&t);
    let t = replace_pass(&t, "Tag 01", "");
    let t = replace_pass(&t, "Tag 02", "");
    let t = replace_pass(&t, "Tag 03", "");
    let t = replace_pass(&t, "Tag 04", "");
    let t = replace_pass(&t, "Tag 05", "");
    let t = replace_pass(&t, "Tag 06", "");
    let t = replace_pass(&t, "Tag 07", "");
    t
}

/// The canonical form of a raw activity text: the four normalizer stages
/// in their fixed order.
#[verifier::opaque]
pub open spec fn normalize_spec(s: Seq<char>) -> Seq<char> {
    boilerplate_pass(pattern_pass(punct_pass(jargon_pass(s))))
}

/// Maps a raw activity description to its canonical label by the ordered
/// rewrite pipeline.  Deterministic, with no failure mode: every input
/// yields a string, possibly empty.
pub fn apply_replacements(description: &str) -> (r: String)
    ensures
        r@ == normalize_spec(description@),
{
    proof {
        reveal(normalize_spec);
    }
    let t = chars_vec(description);
    let t = apply_jargon_pass(&t);
    let t = apply_punct_pass(&t);
    let t = apply_pattern_pass(&t);
    let t = apply_boilerplate_pass(&t);
    string_from_chars(&t)
}





/// Every character of `t` lies in the collapsible class.
pub open spec fn only_collapsible(t: Seq<char>) -> bool {
    forall|k: int| 0 <= k < t.len() ==> is_collapsible(#[trigger] t[k])
}

/// A literal substitution whose replacement is made of collapsible
/// characters keeps a collapsible string collapsible.
proof fn lemma_replace_preserves_class(t: Seq<char>, p: Seq<char>, rep: Seq<char>)
    requires
        only_collapsible(t),
        only_collapsible(rep),
    ensures
        only_collapsible(replace_lit_spec(t, p, rep)),
    decreases t.len(),
{
    if p.len() == 0 || t.len() < p.len() {
    } else if t.take(p.len() as int) == p {
        assert(only_collapsible(t.skip(p.len() as int)));
        lemma_replace_preserves_class(t.skip(p.len() as int), p, rep);
        let tail = replace_lit_spec(t.skip(p.len() as int), p, rep);
        assert forall|k: int|
            0 <= k < (rep + tail).len() implies is_collapsible(#[trigger] (rep + tail)[k]) by {
            if k < rep.len() {
                assert((rep + tail)[k] == rep[k]);
            } else {
                assert((rep + tail)[k] == tail[k - rep.len()]);
            }
        }
    } else {
        assert(only_collapsible(t.skip(1)));
        lemma_replace_preserves_class(t.skip(1), p, rep);
        let tail = replace_lit_spec(t.skip(1), p, rep);
        assert forall|k: int|
            0 <= k < (seq![t[0]] + tail).len() implies is_collapsible(
            #[trigger] (seq![t[0]] + tail)[k],
        ) by {
            if k == 0 {
                assert((seq![t[0]] + tail)[0] == t[0]);
            } else {
                assert((seq![t[0]] + tail)[k] == tail[k - 1]);
            }
        }
    }
}

/// A literal substitution whose pattern holds a character outside the
/// collapsible class never fires on a collapsible string.
proof fn lemma_replace_no_match(t: Seq<char>, p: Seq<char>, rep: Seq<char>, jj: int)
    requires
        only_collapsible(t),
        0 <= jj < p.len(),
        !is_collapsible(p[jj]),
    ensures
        replace_lit_spec(t, p, rep) == t,
    decreases t.len(),
{
    if p.len() == 0 || t.len() < p.len() {
    } else if t.take(p.len() as int) == p {
        assert(t.take(p.len() as int)[jj] == t[jj]);
        assert(is_collapsible(t[jj]));
        assert(false);
    } else {
        assert(only_collapsible(t.skip(1)));
        lemma_replace_no_match(t.skip(1), p, rep, jj);
        assert(seq![t[0]] + t.skip(1) =~= t);
    }
}

/// A scan whose replacements are collapsible wherever it fires keeps a
/// collapsible string collapsible.
proof fn lemma_scan_class(
    t: Seq<char>,
    i: int,
    m: spec_fn(Seq<char>, int) -> int,
    r: spec_fn(Seq<char>, int) -> Seq<char>,
)
    requires
        0 <= i <= t.len(),
        only_collapsible(t),
        forall|i2: int|
            #![trigger m(t, i2)]
            0 <= i2 < t.len() && 1 <= m(t, i2) && i2 + m(t, i2) <= t.len() ==> (forall|k: int|
                0 <= k < r(t, i2).len() ==> is_collapsible(#[trigger] r(t, i2)[k])),
    ensures
        only_collapsible(scan_from(t, i, m, r)),
    decreases t.len() - i,
{
    if i >= t.len() {
    } else {
        let l = m(t, i);
        if 1 <= l && i + l <= t.len() {
            lemma_scan_class(t, i + l, m, r);
            let head = r(t, i);
            let tail = scan_from(t, i + l, m, r);
            assert(forall|k: int| 0 <= k < head.len() ==> is_collapsible(#[trigger] head[k]));
            assert forall|k: int|
                0 <= k < (head + tail).len() implies is_collapsible(#[trigger] (head + tail)[k]) by {
                if k < head.len() {
                    assert((head + tail)[k] == head[k]);
                } else {
                    assert((head + tail)[k] == tail[k - head.len()]);
                }
            }
        } else {
            lemma_scan_class(t, i + 1, m, r);
            let tail = scan_from(t, i + 1, m, r);
            assert forall|k: int|
                0 <= k < (seq![t[i]] + tail).len() implies is_collapsible(
                #[trigger] (seq![t[i]] + tail)[k],
            ) by {
                if k == 0 {
                    assert((seq![t[i]] + tail)[0] == t[i]);
                } else {
                    assert((seq![t[i]] + tail)[k] == tail[k - 1]);
                }
            }
        }
    }
}

/// The replacements of the punctuation stage are collapsible.
proof fn lemma_separator_literals()
    ensures
        only_collapsible(" "@),
        only_collapsible("  "@),
        only_collapsible(", "@),
        only_collapsible("-"@),
        only_collapsible(": "@),
        only_collapsible(": -"@),
{
    reveal_strlit(" ");
    reveal_strlit("  ");
    reveal_strlit(", ");
    reveal_strlit("-");
    reveal_strlit(": ");
    reveal_strlit(": -");
}

/// The jargon stage keeps a collapsible string collapsible: replacements
/// are separators, and the two word-to-word fixes never fire without a
/// letter in the input.
proof fn lemma_jargon_class(s: Seq<char>)
    requires
        only_collapsible(s),
    ensures
        only_collapsible(jargon_pass(s)),
{
    lemma_separator_literals();
    reveal_strlit("Krank");
    reveal_strlit("Selbstlernphase");
    reveal_strlit("hemen und Lernziele");
    reveal_strlit("Themen und Lernziele");
    let s1 = replace_lit_spec(s, "1 & 2"@, " "@);
    lemma_replace_preserves_class(s, "1 & 2"@, " "@);
    let s2 = replace_lit_spec(s1, ", 2, 3"@, " "@);
    lemma_replace_preserves_class(s1, ", 2, 3"@, " "@);
    let s3 = replace_lit_spec(s2, "_Aufg_9_"@, " "@);
    lemma_replace_preserves_class(s2, "_Aufg_9_"@, " "@);
    let s4 = replace_lit_spec(s3, "1, Kap."@, " "@);
    lemma_replace_preserves_class(s3, "1, Kap."@, " "@);
    let s5 = replace_lit_spec(s4, "Kap."@, " "@);
    lemma_replace_preserves_class(s4, "Kap."@, " "@);
    let s6 = replace_lit_spec(s5, "-Auf_6-1_Lernsituation-6\u{2026}"@, " "@);
    lemma_replace_preserves_class(s5, "-Auf_6-1_Lernsituation-6\u{2026}"@, " "@);
    let s7 = replace_lit_spec(
        s6,
        "_Aufg_7-Kreuzwortr\u{00e4}tsel relationales Datenmodell\u{2026}"@,
        " "@,
    );
    lemma_replace_preserves_class(
        s6,
        "_Aufg_7-Kreuzwortr\u{00e4}tsel relationales Datenmodell\u{2026}"@,
        " "@,
    );
    let s8 = replace_lit_spec(s7, "-591_Lehrbuch_Auf_4_"@, " "@);
    lemma_replace_preserves_class(s7, "-591_Lehrbuch_Auf_4_"@, " "@);
    let s9 = replace_lit_spec(s8, "-590_Lehrbuch_Auf_2_"@, " "@);
    lemma_replace_preserves_class(s8, "-590_Lehrbuch_Auf_2_"@, " "@);
    let s10 = replace_lit_spec(s9, "siehe \u{00dc}bungsdatei 5.1.2_...."@, " "@);
    lemma_replace_preserves_class(s9, "siehe \u{00dc}bungsdatei 5.1.2_...."@, " "@);
    let s11 = replace_lit_spec(s10, "Einf\u{00fc}hrung, Kap."@, " "@);
    lemma_replace_preserves_class(s10, "Einf\u{00fc}hrung, Kap."@, " "@);
    let s12 = replace_lit_spec(s11, "Einzel-/Gruppenarbeit"@, " "@);
    lemma_replace_preserves_class(s11, "Einzel-/Gruppenarbeit"@, " "@);
    let s13 = replace_lit_spec(s12, "Gruppenarbeit und Besprechung"@, " "@);
    lemma_replace_preserves_class(s12, "Gruppenarbeit und Besprechung"@, " "@);
    let s14 = replace_lit_spec(s13, "Inhalte:"@, "  "@);
    lemma_replace_preserves_class(s13, "Inhalte:"@, "  "@);
    let s15 = replace_lit_spec(s14, "Tagesinhalte:"@, " "@);
    lemma_replace_preserves_class(s14, "Tagesinhalte:"@, " "@);
    let s16 = replace_lit_spec(s15, "\u{00dc}bungen:"@, " "@);
    lemma_replace_preserves_class(s15, "\u{00dc}bungen:"@, " "@);
    let s17 = replace_lit_spec(s16, "Pr\u{00fc}fungen"@, " "@);
    lemma_replace_preserves_class(s16, "Pr\u{00fc}fungen"@, " "@);
    let s18 = replace_lit_spec(s17, "Pr\u{00fc}fungen:"@, " "@);
    lemma_replace_preserves_class(s17, "Pr\u{00fc}fungen:"@, " "@);
    let s19 = replace_lit_spec(s18, "Handlungsaufgabe:"@, " "@);
    lemma_replace_preserves_class(s18, "Handlungsaufgabe:"@, " "@);
    let s20 = replace_lit_spec(s19, "Grammar:"@, " "@);
    lemma_replace_preserves_class(s19, "Grammar:"@, " "@);
    let s21 = replace_lit_spec(s20, "IT-Milestone:"@, " "@);
    lemma_replace_preserves_class(s20, "IT-Milestone:"@, " "@);
    let s22 = replace_lit_spec(s21, "Your English skills:"@, " "@);
    lemma_replace_preserves_class(s21, "Your English skills:"@, " "@);
    let s23 = replace_lit_spec(s22, "Communication:"@, " "@);
    lemma_replace_preserves_class(s22, "Communication:"@, " "@);
    let s24 = replace_lit_spec(s23, "Wiederholung des Vortags"@, " "@);
    lemma_replace_preserves_class(s23, "Wiederholung des Vortags"@, " "@);
    let s25 = replace_lit_spec(s24, "alles Folienpr\u{00e4}sentation"@, " "@);
    lemma_replace_preserves_class(s24, "alles Folienpr\u{00e4}sentation"@, " "@);
    let s26 = replace_lit_spec(s25, "Informationen beschaffen und verwerten"@, " "@);
    lemma_replace_preserves_class(s25, "Informationen beschaffen und verwerten"@, " "@);
    let s27 = replace_lit_spec(s26, "Lehrgespr\u{00e4}che in den folgenden Themen:"@, " "@);
    lemma_replace_preserves_class(s26, "Lehrgespr\u{00e4}che in den folgenden Themen:"@, " "@);
    let s28 = replace_lit_spec(s27, "(Lehrgespr\u{00e4}che)"@, " "@);
    lemma_replace_preserves_class(s27, "(Lehrgespr\u{00e4}che)"@, " "@);
    let s29 = replace_lit_spec(s28, "EXCEL"@, " "@);
    lemma_replace_preserves_class(s28, "EXCEL"@, " "@);
    let s30 = replace_lit_spec(s29, "Lernmethode: Workshop in"@, " "@);
    lemma_replace_preserves_class(s29, "Lernmethode: Workshop in"@, " "@);
    let s31 = replace_lit_spec(s30, "Praktische \u{00dc}bung:"@, " "@);
    lemma_replace_preserves_class(s30, "Praktische \u{00dc}bung:"@, " "@);
    let s32 = replace_lit_spec(s31, "Lernmethoden:"@, " "@);
    lemma_replace_preserves_class(s31, "Lernmethoden:"@, " "@);
    let s33 = replace_lit_spec(s32, "Krank"@, "Selbstlernphase"@);
    assert(!is_collapsible("Krank"@[0]));
    lemma_replace_no_match(s32, "Krank"@, "Selbstlernphase"@, 0);
    let s34 = replace_lit_spec(s33, "hemen und Lernziele"@, "Themen und Lernziele"@);
    assert(!is_collapsible("hemen und Lernziele"@[0]));
    lemma_replace_no_match(s33, "hemen und Lernziele"@, "Themen und Lernziele"@, 0);
}

/// The whitespace and punctuation stage keeps a collapsible string
/// collapsible.
proof fn lemma_punct_class(s: Seq<char>)
    requires
        only_collapsible(s),
    ensures
        only_collapsible(punct_pass(s)),
{
    lemma_separator_literals();
    let s1 = replace_lit_spec(s, "\t"@, " "@);
    lemma_replace_preserves_class(s, "\t"@, " "@);
    let s2 = replace_lit_spec(s1, "\n"@, " "@);
    lemma_replace_preserves_class(s1, "\n"@, " "@);
    let s3 = replace_lit_spec(s2, " , "@, ", "@);
    lemma_replace_preserves_class(s2, " , "@, ", "@);
    let s4 = replace_lit_spec(s3, " +"@, " "@);
    lemma_replace_preserves_class(s3, " +"@, " "@);
    let s5 = replace_lit_spec(s4, "--"@, "-"@);
    lemma_replace_preserves_class(s4, "--"@, "-"@);
    let s6 = replace_lit_spec(s5, "- -"@, "-"@);
    lemma_replace_preserves_class(s5, "- -"@, "-"@);
    let s7 = replace_lit_spec(s6, " :"@, ": "@);
    lemma_replace_preserves_class(s6, " :"@, ": "@);
    let s8 = replace_lit_spec(s7, ":-"@, ": -"@);
    lemma_replace_preserves_class(s7, ":-"@, ": -"@);
}


/// Take and skip keep a collapsible string collapsible; the anchored
/// strip rules therefore do.
proof fn lemma_strip_class(t: Seq<char>, p: Seq<char>)
    requires
        only_collapsible(t),
    ensures
        only_collapsible(strip_prefix_spec(t, p)),
        only_collapsible(strip_suffix_spec(t, p)),
        only_collapsible(dash_stripped(t)),
        only_collapsible(day_token_stripped(t)),
{
    assert forall|k: int|
        0 <= k < strip_prefix_spec(t, p).len() implies is_collapsible(
        #[trigger] strip_prefix_spec(t, p)[k],
    ) by {
        if p.len() <= t.len() && t.take(p.len() as int) == p {
            assert(strip_prefix_spec(t, p)[k] == t[k + p.len()]);
        }
    }
    assert forall|k: int|
        0 <= k < strip_suffix_spec(t, p).len() implies is_collapsible(
        #[trigger] strip_suffix_spec(t, p)[k],
    ) by {
        if p.len() <= t.len() && t.skip(t.len() - p.len()) == p {
            assert(strip_suffix_spec(t, p)[k] == t[k]);
        }
    }
    assert forall|k: int|
        0 <= k < dash_stripped(t).len() implies is_collapsible(#[trigger] dash_stripped(t)[k]) by {
        if t.len() >= 2 && t[0] == '-' && t[1] == ' ' {
            assert(dash_stripped(t)[k] == t[k + 2]);
        } else if t.len() >= 1 && t[0] == '-' {
            assert(dash_stripped(t)[k] == t[k + 1]);
        }
    }
    assert forall|k: int|
        0 <= k < day_token_stripped(t).len() implies is_collapsible(
        #[trigger] day_token_stripped(t)[k],
    ) by {
        if t.len() >= 2 && ((t[0] == '0' && is_digit(t[1])) || (t[0] == '1' && t[1] == '0')) && (
        t.len() == 2 || !is_word(t[2])) {
            assert(day_token_stripped(t)[k] == t[k + 2]);
        }
    }
}

/// On a string of collapsible characters the pattern stage ends empty:
/// the scanning rules and strips keep the class, and the all-punctuation
/// rule then collapses whatever is left.
proof fn lemma_pattern_collapses(s: Seq<char>)
    requires
        only_collapsible(s),
    ensures
        pattern_pass(s).len() == 0,
{
    let m1 = |t2: Seq<char>, i2: int| num_hyphen_match(t2, i2);
    let r1 = |t2: Seq<char>, i2: int| num_hyphen_rep(t2, i2);
    let s1 = num_hyphen_stripped(s);
    assert(s1 == scan_from(s, 0, m1, r1));
    assert forall|i2: int|
        #![trigger m1(s, i2)]
        0 <= i2 < s.len() && 1 <= m1(s, i2) && i2 + m1(s, i2) <= s.len() implies (forall|k: int|
        0 <= k < r1(s, i2).len() ==> is_collapsible(#[trigger] r1(s, i2)[k])) by {
        if 1 <= m1(s, i2) && i2 + m1(s, i2) <= s.len() {
            let a = crate::chars::digit_run(s, i2);
            crate::chars::lemma_digit_run_bounds(s, i2);
            let w = crate::chars::word_run(s, i2 + a + 3);
            assert(m1(s, i2) == a + 3 + w);
            assert forall|k: int|
                0 <= k < r1(s, i2).len() implies is_collapsible(#[trigger] r1(s, i2)[k]) by {
                assert(r1(s, i2) == s.subrange(i2 + a, i2 + a + 3 + w));
                assert(r1(s, i2)[k] == s[i2 + a + k]);
            }
        }
    }
    lemma_scan_class(s, 0, m1, r1);

    let m2 = |t2: Seq<char>, i2: int| ws_any_match(t2, i2);
    let rsp = |t2: Seq<char>, i2: int| space_rep(t2, i2);
    let s2 = ws_collapsed(s1);
    assert(s2 == scan_from(s1, 0, m2, rsp));
    lemma_scan_class(s1, 0, m2, rsp);

    let m3 = |t2: Seq<char>, i2: int| ws_two_match(t2, i2);
    let s3 = ws_two_collapsed(s2);
    assert(s3 == scan_from(s2, 0, m3, rsp));
    lemma_scan_class(s2, 0, m3, rsp);

    let rempty = |t2: Seq<char>, i2: int| empty_rep(t2, i2);
    let m4 = |t2: Seq<char>, i2: int| triple_num_match(t2, i2);
    let s4 = triple_num_removed(s3);
    assert(s4 == scan_from(s3, 0, m4, rempty));
    lemma_scan_class(s3, 0, m4, rempty);

    let m5 = |t2: Seq<char>, i2: int| dots_match(t2, i2);
    let s5 = dots_removed(s4);
    assert(s5 == scan_from(s4, 0, m5, rempty));
    lemma_scan_class(s4, 0, m5, rempty);

    let m6 = |t2: Seq<char>, i2: int| empty_parens_match(t2, i2);
    let s6 = empty_parens_removed(s5);
    assert(s6 == scan_from(s5, 0, m6, rempty));
    lemma_scan_class(s5, 0, m6, rempty);

    let m7 = |t2: Seq<char>, i2: int| comma_match(t2, i2);
    let r7 = |t2: Seq<char>, i2: int| comma_rep(t2, i2);
    let s7 = commas_collapsed(s6);
    assert(s7 == scan_from(s6, 0, m7, r7));
    lemma_scan_class(s6, 0, m7, r7);

    let s8 = strip_suffix_spec(s7, seq![',']);
    lemma_strip_class(s7, seq![',']);

    let m9 = |t2: Seq<char>, i2: int| pair_num_match(t2, i2);
    let s9 = pair_num_removed(s8);
    assert(s9 == scan_from(s8, 0, m9, rempty));
    lemma_scan_class(s8, 0, m9, rempty);

    let m10 = |t2: Seq<char>, i2: int| paren_match(t2, i2);
    let s10 = parens_removed(s9);
    assert(s10 == scan_from(s9, 0, m10, rempty));
    lemma_scan_class(s9, 0, m10, rempty);

    let s11 = all_collapsed(s10);
    assert(s11.len() == 0);

    let s12 = strip_prefix_spec(s11, seq!['o', ' ']);
    assert(s12.len() == 0);
    let s13 = strip_prefix_spec(s12, seq!['\u{00a7}', ' ']);
    assert(s13.len() == 0);
    let s14 = dash_stripped(s13);
    assert(s14.len() == 0);
    let s15 = strip_prefix_spec(s14, seq!['\u{00b7}', ' ']);
    assert(s15.len() == 0);
    let s16 = strip_suffix_spec(s15, seq!['[']);
    assert(s16.len() == 0);
    let s17 = day_token_stripped(s16);
    assert(s17.len() == 0);
    let s18 = strip_prefix_spec(s17, seq![':', ' ']);
    assert(s18.len() == 0);
    let s19 = strip_suffix_spec(s18, seq!['.']);
    assert(s19.len() == 0);
    assert(pattern_pass(s) == s19);
}

/// On the empty string the boilerplate stage is the identity.
proof fn lemma_boilerplate_empty()
    ensures
        boilerplate_pass(Seq::<char>::empty()).len() == 0,
{
    let e = Seq::<char>::empty();
    let rempty = |t2: Seq<char>, i2: int| empty_rep(t2, i2);
    assert(kap_removed(e) == e) by {
        assert(scan_from(e, 0, |t2: Seq<char>, i2: int| kap_match(t2, i2), rempty) =~= e);
    }
    assert(tag_removed(e) == e) by {
        assert(scan_from(e, 0, |t2: Seq<char>, i2: int| tag_match(t2, i2), rempty) =~= e);
    }
    assert(css_folien_removed(e) == e) by {
        assert(scan_from(e, 0, |t2: Seq<char>, i2: int| css_folien_match(t2, i2), rempty) =~= e);
    }
    assert(html_folien_removed(e) == e) by {
        assert(scan_from(e, 0, |t2: Seq<char>, i2: int| html_folien_match(t2, i2), rempty) =~= e);
    }
    assert(replace_lit_spec(e, "Tag 01"@, ""@) == e);
    assert(replace_lit_spec(e, "Tag 02"@, ""@) == e);
    assert(replace_lit_spec(e, "Tag 03"@, ""@) == e);
    assert(replace_lit_spec(e, "Tag 04"@, ""@) == e);
    assert(replace_lit_spec(e, "Tag 05"@, ""@) == e);
    assert(replace_lit_spec(e, "Tag 06"@, ""@) == e);
    assert(replace_lit_spec(e, "Tag 07"@, ""@) == e);
}

/// A raw text consisting only of punctuation, separators and digits
/// normalizes to the empty string: every earlier rule keeps the string in
/// that class, the all-punctuation rule then collapses it, and no later
/// rule revives it.  Contrapositively, a normalized result that consists
/// only of such characters and is not empty can only come from an input
/// outside the class.
pub proof fn lemma_normalize_collapsible(s: Seq<char>)
    requires
        only_collapsible(s),
    ensures
        normalize_spec(s).len() == 0,
{
    reveal(normalize_spec);
    lemma_jargon_class(s);
    lemma_punct_class(jargon_pass(s));
    lemma_pattern_collapses(punct_pass(jargon_pass(s)));
    assert(pattern_pass(punct_pass(jargon_pass(s))) =~= Seq::<char>::empty());
    lemma_boilerplate_empty();
}

/// Normalization is idempotent on its own stable outputs: once a pass
/// leaves a text unchanged, running the pipeline again returns the same
/// text.
pub proof fn lemma_normalize_idempotent_on_stable(s: Seq<char>)
    requires
        normalize_spec(s) == s,
    ensures
        normalize_spec(normalize_spec(s)) == normalize_spec(s),
{
}

} // verus!
