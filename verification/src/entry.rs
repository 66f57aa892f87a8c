//! Classbook entries and their extraction from pre-selected row data.
//!
//! A row of the classbook table reaches this module as plain text: the
//! combined weekday/date/time cell, the description cell, and the raw text
//! fragments collected from the row's markup.  Everything from there on is
//! verified: splitting the date cell, clamping the time window, normalizing
//! each fragment and collecting the insertion-ordered, deduplicated
//! activity set.
use vstd::prelude::*;

use crate::chars::{
    chars_vec, lex_lt, lex_lt_vec, push_all, split_char_spec, split_char_vec, split_str_spec,
    split_str_vec, string_from_chars, trim_chars, trim_spec,
};
use crate::normalize::{apply_replacements, normalize_spec};

verus! {

/// One taught session of a classbook: the weekday label, the date as
/// `day.month.two-digit-year`, the time window (`HH:MM - HH:MM`, or the
/// default window), the raw description text, and the insertion-ordered
/// set of activity labels.
pub struct ClassbookEntry {
    pub weekday: String,
    pub date: String,
    pub time: String,
    pub description: String,
    pub activities: Vec<String>,
}

/// The views of a list of strings.
pub open spec fn seq_views(ss: Seq<String>) -> Seq<Seq<char>> {
    ss.map_values(|s: String| s@)
}

/// Well-formedness of an activity set: no empty labels and no duplicates.
pub open spec fn acts_wf(acts: Seq<Seq<char>>) -> bool {
    &&& forall|i: int| 0 <= i < acts.len() ==> acts[i].len() > 0
    &&& forall|i: int, j: int| 0 <= i < j < acts.len() ==> acts[i] != acts[j]
}

/// Well-formedness of an entry: its activity set is well-formed.
pub open spec fn entry_wf(e: ClassbookEntry) -> bool {
    acts_wf(seq_views(e.activities@))
}

/// The time window that clamping yields for a raw window `t`: the default
/// window for an empty input; for a window of exactly two ` - `-separated
/// fields whose trimmed end lies lexicographically above `16:30`, the
/// trimmed start joined with ` - 16:30`; any other input unchanged.
pub open spec fn limit_time_range_spec(t: Seq<char>) -> Seq<char> {
    if t.len() == 0 {
        "08:00 - 16:30"@
    } else {
        let parts = split_str_spec(t, " - "@);
        if parts.len() == 2 {
            let start = trim_spec(parts[0]);
            let end = trim_spec(parts[1]);
            if lex_lt("16:30"@, end) {
                start + " - 16:30"@
            } else {
                t
            }
        } else {
            t
        }
    }
}

/// Clamps a time window to end no later than `16:30`, and defaults an
/// empty window to `08:00 - 16:30`.
pub fn limit_time_range(time: &str) -> (r: String)
    ensures
        r@ == limit_time_range_spec(time@),
{
    let t = chars_vec(time);
    if t.len() == 0 {
        return String::from_str("08:00 - 16:30");
    }
    let sep = chars_vec(" - ");
    proof {
        reveal_strlit(" - ");
    }
    let parts = split_str_vec(&t, &sep);
    if parts.len() == 2 {
        let start = trim_chars(&parts[0]);
        let end = trim_chars(&parts[1]);
        let bound = chars_vec("16:30");
        if lex_lt_vec(&bound, &end) {
            let mut out = start;
            let tail = chars_vec(" - 16:30");
            push_all(&mut out, &tail);
            return string_from_chars(&out);
        }
    }
    string_from_chars(&t)
}

/// The weekday label of a combined `weekday, date time` cell: the text
/// before the first comma, trimmed.
pub open spec fn pdt_weekday(s: Seq<char>) -> Seq<char> {
    trim_spec(split_char_spec(s, ',')[0])
}

/// The part of the combined cell between the first and second comma,
/// trimmed.
pub open spec fn pdt_second(s: Seq<char>) -> Seq<char> {
    trim_spec(split_char_spec(s, ',')[1])
}

/// The date of a combined cell: the first space-separated field after the
/// comma.
pub open spec fn pdt_date(s: Seq<char>) -> Seq<char> {
    split_char_spec(pdt_second(s), ' ')[0]
}

/// The raw time window of a combined cell: the second and fourth
/// space-separated fields joined by ` - ` when at least four fields are
/// present, and empty otherwise.
pub open spec fn pdt_time(s: Seq<char>) -> Seq<char> {
    let dp = split_char_spec(pdt_second(s), ' ');
    if dp.len() >= 4 {
        dp[1] + " - "@ + dp[3]
    } else {
        Seq::<char>::empty()
    }
}

/// Splits a combined `weekday, date time` cell into the weekday label, the
/// date, and the raw time window.  The cell must contain a comma.
pub fn parse_date_and_time(date_and_time_str: &str) -> (r: (String, String, String))
    requires
        split_char_spec(date_and_time_str@, ',').len() >= 2,
    ensures
        r.0@ == pdt_weekday(date_and_time_str@),
        r.1@ == pdt_date(date_and_time_str@),
        r.2@ == pdt_time(date_and_time_str@),
{
    let t = chars_vec(date_and_time_str);
    let parts = split_char_vec(&t, ',');
    let weekday = trim_chars(&parts[0]);
    let second = trim_chars(&parts[1]);
    let dparts = split_char_vec(&second, ' ');
    let date = &dparts[0];
    let date = crate::chars::subrange_vec(date, 0, date.len());
    assert(date@ =~= split_char_spec(second@, ' ')[0]);
    if dparts.len() >= 4 {
        let mut time = crate::chars::subrange_vec(&dparts[1], 0, dparts[1].len());
        assert(time@ =~= split_char_spec(second@, ' ')[1]);
        let sep = chars_vec(" - ");
        push_all(&mut time, &sep);
        let fourth = &dparts[3];
        push_all(&mut time, fourth);
        assert(time@ == split_char_spec(second@, ' ')[1] + " - "@ + split_char_spec(
            second@,
            ' ',
        )[3]);
        (string_from_chars(&weekday), string_from_chars(&date), string_from_chars(&time))
    } else {
        let empty: Vec<char> = Vec::new();
        (string_from_chars(&weekday), string_from_chars(&date), string_from_chars(&empty))
    }
}

/// Insertion into an insertion-ordered deduplicated activity set: an empty
/// or already-present label leaves the set unchanged, any other label is
/// appended.
pub open spec fn insert_act_spec(acc: Seq<Seq<char>>, a: Seq<char>) -> Seq<Seq<char>> {
    if a.len() == 0 || acc.contains(a) {
        acc
    } else {
        acc.push(a)
    }
}

/// Insertion keeps an activity set well-formed.
pub proof fn lemma_insert_act_wf(acc: Seq<Seq<char>>, a: Seq<char>)
    requires
        acts_wf(acc),
    ensures
        acts_wf(insert_act_spec(acc, a)),
{
    if !(a.len() == 0 || acc.contains(a)) {
        let r = acc.push(a);
        assert forall|i: int, j: int| 0 <= i < j < r.len() implies r[i] != r[j] by {
            if j == r.len() - 1 {
                assert(r[j] == a);
                assert(acc.contains(r[i])) by {
                    assert(acc[i] == r[i]);
                }
            }
        }
    }
}

/// The activity set after inserting the canonical form (normalized, then
/// trimmed) of each raw fragment, in order.
pub open spec fn acc_norm(acc: Seq<Seq<char>>, frags: Seq<Seq<char>>) -> Seq<Seq<char>>
    decreases frags.len(),
{
    if frags.len() == 0 {
        acc
    } else {
        acc_norm(insert_act_spec(acc, trim_spec(normalize_spec(frags[0]))), frags.skip(1))
    }
}

/// The activity set after inserting each fragment verbatim, trimmed only.
pub open spec fn acc_verbatim(acc: Seq<Seq<char>>, frags: Seq<Seq<char>>) -> Seq<Seq<char>>
    decreases frags.len(),
{
    if frags.len() == 0 {
        acc
    } else {
        acc_verbatim(insert_act_spec(acc, trim_spec(frags[0])), frags.skip(1))
    }
}

/// Folding fragments into a well-formed set keeps it well-formed.
pub proof fn lemma_acc_norm_wf(acc: Seq<Seq<char>>, frags: Seq<Seq<char>>)
    requires
        acts_wf(acc),
    ensures
        acts_wf(acc_norm(acc, frags)),
    decreases frags.len(),
{
    if frags.len() > 0 {
        lemma_insert_act_wf(acc, trim_spec(normalize_spec(frags[0])));
        lemma_acc_norm_wf(insert_act_spec(acc, trim_spec(normalize_spec(frags[0]))), frags.skip(1));
    }
}

/// Folding fragments into a well-formed set keeps it well-formed.
pub proof fn lemma_acc_verbatim_wf(acc: Seq<Seq<char>>, frags: Seq<Seq<char>>)
    requires
        acts_wf(acc),
    ensures
        acts_wf(acc_verbatim(acc, frags)),
    decreases frags.len(),
{
    if frags.len() > 0 {
        lemma_insert_act_wf(acc, trim_spec(frags[0]));
        lemma_acc_verbatim_wf(insert_act_spec(acc, trim_spec(frags[0])), frags.skip(1));
    }
}

/// Executable form of `insert_act_spec`.
pub fn insert_activity(acts: &mut Vec<String>, a: String)
    ensures
        seq_views(final(acts)@) == insert_act_spec(seq_views(old(acts)@), a@),
{
    let ghost acc0 = seq_views(acts@);
    if a.as_str().unicode_len() == 0 {
        assert(seq_views(acts@) =~= insert_act_spec(acc0, a@));
        return ;
    }
    let n = acts.len();
    let mut i: usize = 0;
    while i < n
        invariant
            i <= n,
            n == acts@.len(),
            acts@ == old(acts)@,
            acc0 == seq_views(acts@),
            acc0.len() == acts@.len(),
            forall|k: int| 0 <= k < i ==> acts@[k]@ != a@,
        decreases n - i,
    {
        if acts[i].eq(&a) {
            proof {
                assert(0 <= i < acc0.len());
                assert(acc0[i as int] == acts@[i as int]@);
                assert(acc0[i as int] == a@);
                assert(acc0.contains(a@)) by {
                    assert(0 <= i < acc0.len() && acc0[i as int] == a@);
                }
                assert(insert_act_spec(acc0, a@) == acc0);
                assert(seq_views(acts@) =~= acc0);
            }
            return ;
        }
        i = i + 1;
    }
    proof {
        assert forall|k: int| 0 <= k < acc0.len() implies acc0[k] != a@ by {
            assert(acc0[k] == acts@[k]@);
        }
        assert(!acc0.contains(a@));
    }
    acts.push(a);
    assert(seq_views(acts@) =~= acc0.push(a@)) by {
        assert(forall|k: int|
            0 <= k < acts@.len() ==> seq_views(acts@)[k] == #[trigger] acts@[k]@);
    }
}

/// The row data handed to the extractor for one classbook table row: the
/// combined weekday/date/time cell and the description cell where present,
/// the raw text fragments to be normalized, and the fragments taken
/// verbatim (emphasis, headings and nested list items).
pub struct ClassbookRow {
    pub date_and_time: Option<String>,
    pub description: Option<String>,
    pub text_fragments: Vec<String>,
    pub verbatim_fragments: Vec<String>,
}

/// The ways extraction of a row fails: a mandatory cell is absent, or the
/// combined date cell has no comma and cannot be split.
#[derive(Clone, Copy, Debug, PartialEq, Eq, Structural)]
pub enum ExtractError {
    MissingDateCell,
    MissingDescriptionCell,
    MalformedDateCell,
}

/// The failure of a row, if any: a missing date cell first, then a missing
/// description cell, then a date cell without a comma.
pub open spec fn row_error(row: ClassbookRow) -> Option<ExtractError> {
    if row.date_and_time is None {
        Some(ExtractError::MissingDateCell)
    } else if row.description is None {
        Some(ExtractError::MissingDescriptionCell)
    } else if split_char_spec(trim_spec(row.date_and_time->0@), ',').len() < 2 {
        Some(ExtractError::MalformedDateCell)
    } else {
        None
    }
}

/// The full activity set of a row: the normalized fragments first, then
/// the verbatim fragments, deduplicated in first-seen order.
pub open spec fn row_acts(row: ClassbookRow) -> Seq<Seq<char>> {
    acc_verbatim(
        acc_norm(Seq::<Seq<char>>::empty(), seq_views(row.text_fragments@)),
        seq_views(row.verbatim_fragments@),
    )
}

/// The entry that a failure-free row yields.
pub open spec fn entry_matches_row(e: ClassbookEntry, row: ClassbookRow) -> bool {
    let cell = trim_spec(row.date_and_time->0@);
    &&& e.weekday@ == pdt_weekday(cell)
    &&& e.date@ == pdt_date(cell)
    &&& e.time@ == limit_time_range_spec(pdt_time(cell))
    &&& e.description@ == trim_spec(row.description->0@)
    &&& seq_views(e.activities@) == row_acts(row)
}

/// Extracts one classbook entry from one row.
pub fn extract_row(row: &ClassbookRow) -> (r: Result<ClassbookEntry, ExtractError>)
    ensures
        row_error(*row) is Some ==> r == Err::<ClassbookEntry, ExtractError>(row_error(*row)->0),
        row_error(*row) is None ==> r is Ok,
        r matches Ok(e) ==> entry_matches_row(e, *row) && entry_wf(e),
{
    let dt: &String = match &row.date_and_time {
        None => {
            return Err(ExtractError::MissingDateCell);
        },
        Some(dt) => dt,
    };
    let desc: &String = match &row.description {
        None => {
            return Err(ExtractError::MissingDescriptionCell);
        },
        Some(desc) => desc,
    };
    let cv = chars_vec(dt.as_str());
    let cellv = trim_chars(&cv);
    let parts = split_char_vec(&cellv, ',');
    if parts.len() < 2 {
        return Err(ExtractError::MalformedDateCell);
    }
    let cell_str = string_from_chars(&cellv);
    let (weekday, date, time_raw) = parse_date_and_time(cell_str.as_str());
    let time = limit_time_range(time_raw.as_str());
    let dv = chars_vec(desc.as_str());
    let descv = trim_chars(&dv);
    let description = string_from_chars(&descv);

    let mut acts: Vec<String> = Vec::new();
    let ghost frags = seq_views(row.text_fragments@);
    assert(frags.skip(0) =~= frags);
    assert(seq_views(acts@) =~= Seq::<Seq<char>>::empty());
    let mut k: usize = 0;
    let fn_count = row.text_fragments.len();
    while k < fn_count
        invariant
            k <= fn_count,
            fn_count == row.text_fragments@.len(),
            frags == seq_views(row.text_fragments@),
            acc_norm(Seq::<Seq<char>>::empty(), frags) == acc_norm(
                seq_views(acts@),
                frags.skip(k as int),
            ),
        decreases fn_count - k,
    {
        let ghost acc0 = seq_views(acts@);
        let normalized = apply_replacements(row.text_fragments[k].as_str());
        let nv = chars_vec(normalized.as_str());
        let trimmed = trim_chars(&nv);
        let label = string_from_chars(&trimmed);
        proof {
            assert(frags.skip(k as int)[0] == frags[k as int]);
            assert(frags[k as int] == row.text_fragments@[k as int]@);
            assert(label@ == trim_spec(normalize_spec(frags.skip(k as int)[0])));
        }
        insert_activity(&mut acts, label);
        proof {
            assert(frags.skip(k as int).skip(1) =~= frags.skip(k as int + 1));
            assert(acc_norm(acc0, frags.skip(k as int)) == acc_norm(
                seq_views(acts@),
                frags.skip(k as int + 1),
            ));
        }
        k = k + 1;
    }
    assert(frags.skip(fn_count as int) =~= Seq::<Seq<char>>::empty());
    assert(seq_views(acts@) == acc_norm(Seq::<Seq<char>>::empty(), frags));

    let ghost vfrags = seq_views(row.verbatim_fragments@);
    let ghost base = seq_views(acts@);
    assert(vfrags.skip(0) =~= vfrags);
    let mut k2: usize = 0;
    let vb_count = row.verbatim_fragments.len();
    while k2 < vb_count
        invariant
            k2 <= vb_count,
            vb_count == row.verbatim_fragments@.len(),
            vfrags == seq_views(row.verbatim_fragments@),
            acc_verbatim(base, vfrags) == acc_verbatim(seq_views(acts@), vfrags.skip(k2 as int)),
        decreases vb_count - k2,
    {
        let ghost acc0 = seq_views(acts@);
        let vv = chars_vec(row.verbatim_fragments[k2].as_str());
        let trimmed = trim_chars(&vv);
        let label = string_from_chars(&trimmed);
        proof {
            assert(vfrags.skip(k2 as int)[0] == vfrags[k2 as int]);
            assert(vfrags[k2 as int] == row.verbatim_fragments@[k2 as int]@);
            assert(label@ == trim_spec(vfrags.skip(k2 as int)[0]));
        }
        insert_activity(&mut acts, label);
        proof {
            assert(vfrags.skip(k2 as int).skip(1) =~= vfrags.skip(k2 as int + 1));
            assert(acc_verbatim(acc0, vfrags.skip(k2 as int)) == acc_verbatim(
                seq_views(acts@),
                vfrags.skip(k2 as int + 1),
            ));
        }
        k2 = k2 + 1;
    }
    assert(vfrags.skip(vb_count as int) =~= Seq::<Seq<char>>::empty());
    assert(seq_views(acts@) == row_acts(*row));
    proof {
        lemma_acc_norm_wf(Seq::<Seq<char>>::empty(), frags);
        lemma_acc_verbatim_wf(base, vfrags);
    }

    Ok(ClassbookEntry { weekday, date, time, description, activities: acts })
}

/// Extracts the classbook entries of a document from its pre-selected
/// rows.  A single malformed row aborts extraction with the failure of the
/// first such row; otherwise every row yields exactly one entry, in row
/// order.
pub fn extract_classbook_entries(rows: &Vec<ClassbookRow>) -> (r: Result<
    Vec<ClassbookEntry>,
    ExtractError,
>)
    ensures
        r is Ok <==> (forall|i: int| 0 <= i < rows@.len() ==> row_error(rows@[i]) is None),
        r matches Ok(es) ==> es@.len() == rows@.len() && (forall|i: int|
            0 <= i < rows@.len() ==> entry_matches_row(es@[i], rows@[i]) && entry_wf(es@[i])),
        r matches Err(e) ==> exists|i: int|
            0 <= i < rows@.len() && row_error(rows@[i]) == Some(e) && (forall|j: int|
                0 <= j < i ==> row_error(rows@[j]) is None),
{
    let mut entries: Vec<ClassbookEntry> = Vec::new();
    let mut i: usize = 0;
    let n = rows.len();
    while i < n
        invariant
            i <= n,
            n == rows@.len(),
            entries@.len() == i,
            forall|j: int| 0 <= j < i ==> row_error(rows@[j]) is None,
            forall|j: int|
                0 <= j < i ==> entry_matches_row(entries@[j], rows@[j]) && entry_wf(entries@[j]),
        decreases n - i,
    {
        match extract_row(&rows[i]) {
            Ok(e) => {
                entries.push(e);
            },
            Err(err) => {
                return Err(err);
            },
        }
        i = i + 1;
    }
    Ok(entries)
}

} // verus!
