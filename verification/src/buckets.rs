//! Attendance reconciliation and partitioning of entries into ISO calendar
//! weeks.
//!
//! Entries are keyed by their parsed date — a date that fails to parse is
//! a fatal error for the whole run — sorted by date with ties broken by
//! the weekday label, reconciled against the attendance records, and split
//! into buckets wherever the ISO week number changes between neighbouring
//! entries of the sorted sequence.
use vstd::prelude::*;
use vstd::multiset::Multiset;
use vstd::seq_lib::group_to_multiset_ensures;

use crate::attendance::{attendance_valid, is_attendance_valid, Attendance};
use crate::chars::{
    chars_vec, lemma_lex_total, lemma_lex_trans, lex_le, lex_lt, lex_lt_vec,
};
use crate::dates::{dmy2_parse, dmy4_parse, dmy4_reaches_sign, iso_week_of, parse_date_dmy2, parse_date_dmy4, iso_week_number, valid_ymd};
use crate::entry::{seq_views, ClassbookEntry};

verus! {

/// An entry together with its parsed date.
pub struct DatedEntry {
    pub entry: ClassbookEntry,
    pub y: i32,
    pub m: u32,
    pub d: u32,
}

/// A dated entry is well-formed when its key is the parse of its date
/// string and a valid calendar date.
pub open spec fn dated_wf(e: DatedEntry) -> bool {
    dmy2_parse(e.entry.date@) == Some((e.y, e.m, e.d)) && valid_ymd(
        e.y as int,
        e.m as int,
        e.d as int,
    )
}

/// Chronological order on the date keys.
pub open spec fn date_lt(a: DatedEntry, b: DatedEntry) -> bool {
    a.y < b.y || (a.y == b.y && (a.m < b.m || (a.m == b.m && a.d < b.d)))
}

/// The sort order: date ascending, ties broken by the weekday label.
pub open spec fn entry_le(a: DatedEntry, b: DatedEntry) -> bool {
    ||| date_lt(a, b)
    ||| (!date_lt(a, b) && !date_lt(b, a) && lex_le(a.entry.weekday@, b.entry.weekday@))
}

/// The sort order holds between every pair or its converse.
pub proof fn lemma_entry_le_total(a: DatedEntry, b: DatedEntry)
    ensures
        entry_le(a, b) || entry_le(b, a),
{
    lemma_lex_total(a.entry.weekday@, b.entry.weekday@);
}

/// The sort order is transitive.
pub proof fn lemma_entry_le_trans(a: DatedEntry, b: DatedEntry, c: DatedEntry)
    requires
        entry_le(a, b),
        entry_le(b, c),
    ensures
        entry_le(a, c),
{
    if !date_lt(a, b) && !date_lt(b, a) && !date_lt(b, c) && !date_lt(c, b) {
        if lex_lt(a.entry.weekday@, b.entry.weekday@) && lex_lt(
            b.entry.weekday@,
            c.entry.weekday@,
        ) {
            lemma_lex_trans(a.entry.weekday@, b.entry.weekday@, c.entry.weekday@);
        }
    }
}

/// Executable check for `entry_le`.
pub fn entry_le_exec(a: &DatedEntry, b: &DatedEntry) -> (r: bool)
    ensures
        r == entry_le(*a, *b),
{
    if a.y < b.y {
        true
    } else if a.y == b.y && (a.m < b.m || (a.m == b.m && a.d < b.d)) {
        true
    } else if b.y < a.y || (a.y == b.y && (b.m < a.m || (a.m == b.m && b.d < a.d))) {
        false
    } else {
        let aw = chars_vec(a.entry.weekday.as_str());
        let bw = chars_vec(b.entry.weekday.as_str());
        if lex_lt_vec(&aw, &bw) {
            true
        } else {
            let r = a.entry.weekday.eq(&b.entry.weekday);
            proof {
                if !lex_lt(a.entry.weekday@, b.entry.weekday@) && !r {
                    assert(!lex_le(a.entry.weekday@, b.entry.weekday@));
                }
            }
            r
        }
    }
}

/// The sequence is sorted by the sort order.
pub open spec fn entries_sorted(s: Seq<DatedEntry>) -> bool {
    forall|i: int, j: int| 0 <= i < j < s.len() ==> entry_le(s[i], s[j])
}

/// Sorts dated entries by date ascending, ties broken by the weekday
/// label: the result is a sorted rearrangement of the input.
pub fn sort_entries(entries: Vec<DatedEntry>) -> (r: Vec<DatedEntry>)
    ensures
        entries_sorted(r@),
        r@.to_multiset() == entries@.to_multiset(),
        r@.len() == entries@.len(),
{
    broadcast use group_to_multiset_ensures;
    broadcast use vstd::multiset::group_multiset_axioms;

    let ghost all = entries@;
    let mut remaining = entries;
    let mut out: Vec<DatedEntry> = Vec::new();
    while remaining.len() > 0
        invariant
            out@.to_multiset().add(remaining@.to_multiset()) == all.to_multiset(),
            out@.len() + remaining@.len() == all.len(),
            entries_sorted(out@),
            forall|k: int, j: int|
                #![trigger out@[k], remaining@[j]]
                0 <= k < out@.len() && 0 <= j < remaining@.len() ==> entry_le(
                    out@[k],
                    remaining@[j],
                ),
        decreases remaining@.len(),
    {
        let n = remaining.len();
        let mut best: usize = 0;
        let mut j: usize = 1;
        while j < n
            invariant
                n == remaining@.len(),
                best < j <= n,
                forall|k: int| 0 <= k < j ==> entry_le(remaining@[best as int], remaining@[k]),
            decreases n - j,
        {
            if !entry_le_exec(&remaining[best], &remaining[j]) {
                proof {
                    lemma_entry_le_total(remaining@[best as int], remaining@[j as int]);
                    assert forall|k: int| 0 <= k < j + 1 implies entry_le(
                        remaining@[j as int],
                        remaining@[k],
                    ) by {
                        if k < j {
                            lemma_entry_le_trans(
                                remaining@[j as int],
                                remaining@[best as int],
                                remaining@[k],
                            );
                        }
                    }
                }
                best = j;
            }
            j = j + 1;
        }
        let ghost rem0 = remaining@;
        let ghost out0 = out@;
        let chosen = remaining.remove(best);
        proof {
            broadcast use group_to_multiset_ensures;
            broadcast use vstd::multiset::group_multiset_axioms;

            assert(chosen == rem0[best as int]);
            assert(remaining@ == rem0.remove(best as int));
            assert(rem0.remove(best as int).to_multiset() =~= rem0.to_multiset().remove(chosen));
        }
        out.push(chosen);
        proof {
            broadcast use group_to_multiset_ensures;
            broadcast use vstd::multiset::group_multiset_axioms;

            assert(out@ =~= out0.push(chosen));
            assert(out@.to_multiset() =~= out0.to_multiset().insert(chosen));
            assert(out@.to_multiset().add(remaining@.to_multiset()) =~= all.to_multiset());
            assert forall|k: int, j2: int|
                #![trigger out@[k], remaining@[j2]]
                0 <= k < out@.len() && 0 <= j2 < remaining@.len() implies entry_le(
                out@[k],
                remaining@[j2],
            ) by {
                let orig = if j2 < best { j2 } else { j2 + 1 };
                assert(remaining@[j2] == rem0[orig]);
                if k < out@.len() - 1 {
                    assert(entry_le(out0[k], rem0[orig]));
                } else {
                    assert(entry_le(chosen, rem0[orig]));
                }
            }
            assert forall|i: int, j2: int| 0 <= i < j2 < out@.len() implies entry_le(
                out@[i],
                out@[j2],
            ) by {
                if j2 == out@.len() - 1 {
                    assert(entry_le(out0[i], rem0[best as int]));
                }
            }
        }
    }
    proof {
        assert(remaining@.to_multiset() =~= Multiset::<DatedEntry>::empty());
        assert(out@.to_multiset().add(Multiset::<DatedEntry>::empty()) =~= out@.to_multiset());
    }
    out
}

/// The failure of a run whose entries carry a date that does not parse.
#[derive(Clone, Copy, Debug, PartialEq, Eq, Structural)]
pub struct DateParseError;

/// The key of an entry: the entry with its parsed date.  Meaningful only
/// where the date parses.
pub open spec fn key_of(e: ClassbookEntry) -> DatedEntry {
    match dmy2_parse(e.date@) {
        Some(t) => DatedEntry { entry: e, y: t.0, m: t.1, d: t.2 },
        None => DatedEntry { entry: e, y: 0, m: 0, d: 0 },
    }
}

/// The keyed form of a sequence of entries.
pub open spec fn keyed_spec(es: Seq<ClassbookEntry>) -> Seq<DatedEntry> {
    es.map_values(|e: ClassbookEntry| key_of(e))
}

/// A successfully parsed date key is a valid calendar date.
pub proof fn lemma_dmy2_valid(s: Seq<char>)
    ensures
        dmy2_parse(s) matches Some(t) ==> valid_ymd(t.0 as int, t.1 as int, t.2 as int),
{
}

/// Keys every entry by its parsed date; a date that fails to parse is a
/// fatal error for the whole run.
pub fn date_entries(entries: Vec<ClassbookEntry>) -> (r: Result<Vec<DatedEntry>, DateParseError>)
    ensures
        r is Ok <==> (forall|i: int|
            0 <= i < entries@.len() ==> dmy2_parse(entries@[i].date@) is Some),
        r matches Ok(ds) ==> ds@ == keyed_spec(entries@) && (forall|i: int|
            0 <= i < ds@.len() ==> dated_wf(#[trigger] ds@[i])),
{
    let n = entries.len();
    let mut i: usize = 0;
    while i < n
        invariant
            i <= n,
            n == entries@.len(),
            forall|j: int| 0 <= j < i ==> dmy2_parse(#[trigger] entries@[j].date@) is Some,
        decreases n - i,
    {
        if parse_date_dmy2(entries[i].date.as_str()).is_none() {
            return Err(DateParseError);
        }
        i = i + 1;
    }
    let ghost all = entries@;
    let mut entries = entries;
    let mut out: Vec<DatedEntry> = Vec::new();
    let mut i: usize = 0;
    while i < n
        invariant
            i <= n,
            n == all.len(),
            entries@ == all.skip(i as int),
            out@.len() == i,
            forall|j: int| 0 <= j < n ==> dmy2_parse(#[trigger] all[j].date@) is Some,
            forall|j: int| 0 <= j < i ==> out@[j] == key_of(all[j]) && dated_wf(#[trigger] out@[j]),
        decreases n - i,
    {
        let ghost s = all.skip(i as int);
        let e = entries.remove(0);
        proof {
            assert(s[0] == all[i as int]);
            assert(e == all[i as int]);
            assert(s.skip(1) =~= all.skip(i + 1));
        }
        match parse_date_dmy2(e.date.as_str()) {
            None => {
                proof {
                    assert(dmy2_parse(all[i as int].date@) is Some);
                    assert(false);
                }
                return Err(DateParseError);
            },
            Some((y, m, d)) => {
                proof {
                    lemma_dmy2_valid(e.date@);
                }
                out.push(DatedEntry { entry: e, y, m, d });
            },
        }
        i = i + 1;
    }
    proof {
        assert(out@ =~= keyed_spec(all)) by {
            assert(forall|j: int|
                0 <= j < all.len() ==> keyed_spec(all)[j] == key_of(#[trigger] all[j]));
        }
    }
        Ok(out)
}

/// The fixed label recorded for a day of health-related non-attendance.
pub fn health_reason_absence() -> (r: String)
    ensures
        r@ == "Keine Teilnahme am Unterricht aus gesundheitlichen Gr\u{00fc}nden"@,
{
    String::from_str("Keine Teilnahme am Unterricht aus gesundheitlichen Gr\u{00fc}nden")
}

/// All attendance dates are written with an unsigned year, the shape whose
/// parse the library states exactly.
pub open spec fn atts_unsigned(atts: Seq<Attendance>) -> bool {
    forall|i: int| 0 <= i < atts.len() ==> !dmy4_reaches_sign(#[trigger] atts[i].date@)
}

/// The first attendance record whose date, read under the four-digit-year
/// format, equals the entry's date.
pub open spec fn matching_att(atts: Seq<Attendance>, e: DatedEntry) -> Option<Attendance>
    decreases atts.len(),
{
    if atts.len() == 0 {
        None
    } else if dmy4_parse(atts[0].date@) == Some((e.y, e.m, e.d)) {
        Some(atts[0])
    } else {
        matching_att(atts.skip(1), e)
    }
}

/// What reconciliation does to one entry: the key and every field but the
/// activity set are kept; the activity set is replaced by the single
/// health-absence label exactly when a matching attendance record exists
/// and is invalid.
pub open spec fn reconciled_entry(e0: DatedEntry, e1: DatedEntry, atts: Seq<Attendance>) -> bool {
    match matching_att(atts, e0) {
        Some(a) => {
            if !attendance_valid(a) {
                &&& e1.y == e0.y
                &&& e1.m == e0.m
                &&& e1.d == e0.d
                &&& e1.entry.weekday == e0.entry.weekday
                &&& e1.entry.date == e0.entry.date
                &&& e1.entry.time == e0.entry.time
                &&& e1.entry.description == e0.entry.description
                &&& seq_views(e1.entry.activities@) == seq![
                    "Keine Teilnahme am Unterricht aus gesundheitlichen Gr\u{00fc}nden"@,
                ]
            } else {
                e1 == e0
            }
        },
        None => e1 == e0,
    }
}

/// Reconciliation keeps everything but the activity set.
pub open spec fn reconcile_shape(e0: DatedEntry, e1: DatedEntry) -> bool {
    &&& e1.y == e0.y
    &&& e1.m == e0.m
    &&& e1.d == e0.d
    &&& e1.entry.weekday == e0.entry.weekday
    &&& e1.entry.date == e0.entry.date
    &&& e1.entry.time == e0.entry.time
    &&& e1.entry.description == e0.entry.description
    &&& (e1.entry.activities == e0.entry.activities || seq_views(e1.entry.activities@) == seq![
        "Keine Teilnahme am Unterricht aus gesundheitlichen Gr\u{00fc}nden"@,
    ])
}

/// The first match is at the first matching index.
proof fn lemma_matching_att_at(atts: Seq<Attendance>, e: DatedEntry, j: int)
    requires
        0 <= j < atts.len(),
        dmy4_parse(atts[j].date@) == Some((e.y, e.m, e.d)),
        forall|k: int| 0 <= k < j ==> dmy4_parse(#[trigger] atts[k].date@) != Some((e.y, e.m, e.d)),
    ensures
        matching_att(atts, e) == Some(atts[j]),
    decreases atts.len(),
{
    if j > 0 {
        assert(forall|k: int|
            0 <= k < j - 1 ==> atts.skip(1)[k] == #[trigger] atts[k + 1]);
        lemma_matching_att_at(atts.skip(1), e, j - 1);
    }
}

/// Without a matching index there is no match.
proof fn lemma_matching_att_none(atts: Seq<Attendance>, e: DatedEntry)
    requires
        forall|k: int|
            0 <= k < atts.len() ==> dmy4_parse(#[trigger] atts[k].date@) != Some((e.y, e.m, e.d)),
    ensures
        matching_att(atts, e) is None,
    decreases atts.len(),
{
    if atts.len() > 0 {
        assert(forall|k: int|
            0 <= k < atts.skip(1).len() ==> atts.skip(1)[k] == #[trigger] atts[k + 1]);
        lemma_matching_att_none(atts.skip(1), e);
    }
}

/// Reconciles entries against the attendance records: an entry whose date
/// has a matching, invalid attendance record has its activities replaced
/// by the single health-absence label; every other entry is unchanged.
pub fn override_entries(entries: Vec<DatedEntry>, attendances: &Vec<Attendance>) -> (r: Vec<
    DatedEntry,
>)
    ensures
        r@.len() == entries@.len(),
        forall|i: int| 0 <= i < r@.len() ==> reconcile_shape(entries@[i], #[trigger] r@[i]),
        atts_unsigned(attendances@) ==> (forall|i: int|
            0 <= i < r@.len() ==> reconciled_entry(entries@[i], #[trigger] r@[i], attendances@)),
{
    let ghost all = entries@;
    let ghost atts = attendances@;
    let mut entries = entries;
    let mut out: Vec<DatedEntry> = Vec::new();
    let mut i: usize = 0;
    let n = entries.len();
    while i < n
        invariant
            i <= n,
            n == all.len(),
            entries@ == all.skip(i as int),
            atts == attendances@,
            out@.len() == i,
            forall|j: int| 0 <= j < i ==> reconcile_shape(all[j], #[trigger] out@[j]),
            atts_unsigned(atts) ==> (forall|j: int|
                0 <= j < i ==> reconciled_entry(all[j], #[trigger] out@[j], atts)),
        decreases n - i,
    {
        let ghost s = all.skip(i as int);
        let mut e = entries.remove(0);
        proof {
            assert(s[0] == all[i as int]);
            assert(e == all[i as int]);
            assert(s.skip(1) =~= all.skip(i + 1));
        }
        let ghost e0 = e;

        let mut found: Option<usize> = None;
        let mut j: usize = 0;
        let m = attendances.len();
        while j < m && found.is_none()
            invariant
                j <= m,
                m == atts.len(),
                atts == attendances@,
                found is None ==> (atts_unsigned(atts) ==> (forall|k: int|
                    0 <= k < j ==> dmy4_parse(#[trigger] atts[k].date@) != Some((e0.y, e0.m, e0.d))
                )),
                found matches Some(fj) ==> fj < m && (atts_unsigned(atts) ==> matching_att(
                    atts,
                    e0,
                ) == Some(atts[fj as int])),
                e == e0,
            decreases m - j,
        {
            let matches_date = match parse_date_dmy4(attendances[j].date.as_str()) {
                Some((y, m2, d)) => y == e.y && m2 == e.m && d == e.d,
                None => false,
            };
            if matches_date {
                proof {
                    if atts_unsigned(atts) {
                        assert(!dmy4_reaches_sign(atts[j as int].date@));
                        lemma_matching_att_at(atts, e0, j as int);
                    }
                }
                found = Some(j);
            }
            j = j + 1;
        }
        proof {
            if found is None && atts_unsigned(atts) {
                lemma_matching_att_none(atts, e0);
            }
        }
        match found {
            Some(fj) => {
                let invalid = !is_attendance_valid(&attendances[fj]);
                if invalid {
                    let mut acts: Vec<String> = Vec::new();
                    acts.push(health_reason_absence());
                    proof {
                        assert(seq_views(acts@) =~= seq![
                            "Keine Teilnahme am Unterricht aus gesundheitlichen Gr\u{00fc}nden"@,
                        ]);
                    }
                    e.entry.activities = acts;
                }
                out.push(e);
            },
            None => {
                out.push(e);
            },
        }
        i = i + 1;
        proof {
            assert(reconcile_shape(all[i - 1], out@[i - 1]));
        }
    }
    out
}


/// Reconciliation keeps an entry's activity set well-formed: it either
/// leaves the set unchanged or replaces it by the single, non-empty
/// health-absence label.
pub proof fn lemma_reconcile_shape_wf(e0: DatedEntry, e1: DatedEntry)
    requires
        reconcile_shape(e0, e1),
        crate::entry::entry_wf(e0.entry),
    ensures
        crate::entry::entry_wf(e1.entry),
{
    if e1.entry.activities == e0.entry.activities {
    } else {
        reveal_strlit("Keine Teilnahme am Unterricht aus gesundheitlichen Gr\u{00fc}nden");
        let views = seq_views(e1.entry.activities@);
        assert(views.len() == 1);
        assert(views[0].len() > 0);
    }
}

/// The ISO week number of an entry's date key.
pub open spec fn entry_week(e: DatedEntry) -> u32 {
    iso_week_of(e.y as int, e.m as int, e.d as int)
}

/// The length of the leading run of entries whose ISO week number does not
/// change between neighbours.
pub open spec fn week_run(s: Seq<DatedEntry>) -> int
    decreases s.len(),
{
    if s.len() == 0 {
        0
    } else if s.len() == 1 {
        1
    } else if entry_week(s[1]) == entry_week(s[0]) {
        1 + week_run(s.skip(1))
    } else {
        1
    }
}

/// A run of a non-empty sequence covers at least its first entry and at
/// most the whole sequence.
pub proof fn lemma_week_run_bounds(s: Seq<DatedEntry>)
    ensures
        s.len() > 0 ==> 1 <= week_run(s) <= s.len(),
    decreases s.len(),
{
    if s.len() > 1 && entry_week(s[1]) == entry_week(s[0]) {
        lemma_week_run_bounds(s.skip(1));
    }
}

/// Within the leading run every entry has the week number of the first.
pub proof fn lemma_week_run_same(s: Seq<DatedEntry>)
    ensures
        forall|k: int| 0 <= k < week_run(s) ==> entry_week(#[trigger] s[k]) == entry_week(s[0]),
    decreases s.len(),
{
    if s.len() > 1 && entry_week(s[1]) == entry_week(s[0]) {
        lemma_week_run_bounds(s);
        lemma_week_run_bounds(s.skip(1));
        lemma_week_run_same(s.skip(1));
        assert forall|k: int|
            0 <= k < week_run(s) implies entry_week(#[trigger] s[k]) == entry_week(s[0]) by {
            if k > 0 {
                assert(s.skip(1)[k - 1] == s[k]);
                assert(entry_week(s.skip(1)[k - 1]) == entry_week(s.skip(1)[0]));
            }
        }
    }
}

/// The run length determined by its boundary: neighbours agree within the
/// run and the run ends at the end of the sequence or at a change.
pub proof fn lemma_week_run_exact(s: Seq<DatedEntry>, r: int)
    requires
        1 <= r <= s.len(),
        forall|k: int| 1 <= k < r ==> entry_week(#[trigger] s[k]) == entry_week(s[k - 1]),
        r == s.len() || entry_week(s[r]) != entry_week(s[r - 1]),
    ensures
        week_run(s) == r,
    decreases s.len(),
{
    if s.len() > 1 {
        if r == 1 {
            assert(entry_week(s[1]) != entry_week(s[0]));
        } else {
            assert(entry_week(s[1]) == entry_week(s[0]));
            assert forall|k: int|
                1 <= k < r - 1 implies entry_week(#[trigger] s.skip(1)[k]) == entry_week(
                s.skip(1)[k - 1],
            ) by {
                assert(s.skip(1)[k] == s[k + 1]);
                assert(s.skip(1)[k - 1] == s[k]);
                assert(entry_week(s[k + 1]) == entry_week(s[k]));
            }
            if r - 1 < s.skip(1).len() {
                assert(s.skip(1)[r - 1] == s[r]);
                assert(s.skip(1)[r - 2] == s[r - 1]);
            }
            lemma_week_run_exact(s.skip(1), r - 1);
        }
    }
}

/// The partition of a sequence of entries into its ISO-week buckets: a new
/// bucket starts wherever the week number changes between neighbours.
pub open spec fn buckets_spec(s: Seq<DatedEntry>) -> Seq<Seq<DatedEntry>>
    decreases s.len(),
{
    if s.len() == 0 {
        Seq::<Seq<DatedEntry>>::empty()
    } else {
        let r = week_run(s);
        if 1 <= r <= s.len() {
            seq![s.take(r)] + buckets_spec(s.skip(r))
        } else {
            seq![s]
        }
    }
}


/// Concatenating the buckets reproduces the whole sequence.
pub proof fn lemma_buckets_flatten(s: Seq<DatedEntry>)
    ensures
        buckets_spec(s).flatten() == s,
    decreases s.len(),
{
    if s.len() > 0 {
        lemma_week_run_bounds(s);
        let r = week_run(s);
        lemma_buckets_flatten(s.skip(r));
        let bs = buckets_spec(s);
        assert(bs == seq![s.take(r)] + buckets_spec(s.skip(r)));
        assert(bs.len() > 0);
        assert(bs[0] == s.take(r));
        assert(bs.drop_first() =~= buckets_spec(s.skip(r)));
        assert(bs.flatten() == bs[0] + bs.drop_first().flatten());
        assert(s.take(r) + s.skip(r) =~= s);
    }
}

/// Every bucket is non-empty, internally constant in its ISO week number,
/// and adjacent buckets differ in week number at the boundary.
pub proof fn lemma_buckets_shape(s: Seq<DatedEntry>)
    ensures
        forall|i: int| 0 <= i < buckets_spec(s).len() ==> #[trigger] buckets_spec(s)[i].len() >= 1,
        forall|i: int, k: int|
            0 <= i < buckets_spec(s).len() && 0 <= k < buckets_spec(s)[i].len() ==> entry_week(
                #[trigger] buckets_spec(s)[i][k],
            ) == entry_week(buckets_spec(s)[i][0]),
        forall|i: int|
            0 <= i < buckets_spec(s).len() - 1 ==> entry_week(
                #[trigger] buckets_spec(s)[i + 1][0],
            ) != entry_week(buckets_spec(s)[i].last()),
    decreases s.len(),
{
    if s.len() > 0 {
        lemma_week_run_bounds(s);
        lemma_week_run_same(s);
        let r = week_run(s);
        lemma_buckets_shape(s.skip(r));
        let bs = buckets_spec(s);
        let rest = buckets_spec(s.skip(r));
        assert(bs == seq![s.take(r)] + rest);
        assert(bs[0] == s.take(r));
        assert forall|i: int, k: int|
            0 <= i < bs.len() && 0 <= k < bs[i].len() implies entry_week(#[trigger] bs[i][k])
            == entry_week(bs[i][0]) by {
            if i == 0 {
                assert(bs[0][k] == s[k]);
                assert(entry_week(s[k]) == entry_week(s[0]));
            } else {
                assert(bs[i] == rest[i - 1]);
            }
        }
        assert forall|i: int|
            0 <= i < bs.len() - 1 implies entry_week(#[trigger] bs[i + 1][0]) != entry_week(
            bs[i].last(),
        ) by {
            if i == 0 {
                if rest.len() > 0 {
                    assert(s.skip(r).len() > 0);
                    lemma_week_run_bounds(s.skip(r));
                    assert(rest[0] == s.skip(r).take(week_run(s.skip(r))));
                    assert(bs[1][0] == s.skip(r)[0]);
                    assert(bs[1][0] == s[r]);
                    assert(bs[0].last() == s[r - 1]);
                    assert(r < s.len());
                    lemma_week_run_change(s);
                }
            } else {
                assert(bs[i + 1] == rest[i]);
                assert(bs[i] == rest[i - 1]);
                assert(entry_week(rest[(i - 1) + 1][0]) != entry_week(rest[i - 1].last()));
            }
        }
    }
}

/// Where the run ends inside the sequence, the week number changes.
proof fn lemma_week_run_change(s: Seq<DatedEntry>)
    requires
        0 < week_run(s) < s.len(),
    ensures
        entry_week(s[week_run(s)]) != entry_week(s[week_run(s) - 1]),
    decreases s.len(),
{
    if s.len() > 1 && entry_week(s[1]) == entry_week(s[0]) {
        lemma_week_run_bounds(s.skip(1));
        lemma_week_run_change(s.skip(1));
        let r = week_run(s);
        assert(s.skip(1)[r - 1] == s[r]);
        assert(s.skip(1)[r - 2] == s[r - 1]);
    }
}

/// Splits a sorted sequence of dated entries into its ISO-week buckets.
#[verifier::rlimit(100)]
#[verifier::spinoff_prover]
pub fn bucket_entries(sorted: Vec<DatedEntry>) -> (r: Vec<Vec<DatedEntry>>)
    requires
        forall|i: int| 0 <= i < sorted@.len() ==> dated_wf(#[trigger] sorted@[i]),
    ensures
        r@.len() == buckets_spec(sorted@).len(),
        forall|i: int| 0 <= i < r@.len() ==> #[trigger] r@[i]@ == buckets_spec(sorted@)[i],
{
    let ghost all = sorted@;
    let mut sorted = sorted;
    let mut buckets: Vec<Vec<DatedEntry>> = Vec::new();
    let mut cur: Vec<DatedEntry> = Vec::new();
    let mut prev_week: u32 = 0;
    let mut i: usize = 0;
    let ghost mut start: int = 0;
    let n = sorted.len();
    assert(all.skip(0) =~= all);
    while i < n
        invariant
            i <= n,
            n == all.len(),
            sorted@ == all.skip(i as int),
            forall|k: int| 0 <= k < all.len() ==> dated_wf(#[trigger] all[k]),
            0 <= start <= i,
            cur@ == all.subrange(start, i as int),
            i > start ==> prev_week == entry_week(all[i - 1]),
            i == start ==> (i == 0 && buckets@.len() == 0),
            forall|k: int| start < k < i ==> entry_week(#[trigger] all[k]) == entry_week(all[k - 1]),
            buckets_spec(all) == buckets@.map_values(|b: Vec<DatedEntry>| b@) + buckets_spec(
                all.skip(start),
            ),
        decreases n - i,
    {
        let ghost bviews0 = buckets@.map_values(|b: Vec<DatedEntry>| b@);
        let e = sorted.remove(0);
        proof {
            assert(all.skip(i as int)[0] == all[i as int]);
            assert(e == all[i as int]);
            assert(all.skip(i as int).skip(1) =~= all.skip(i as int + 1));
            assert(dated_wf(all[i as int]));
        }
        let w = iso_week_number(e.y, e.m, e.d);
        assert(w == entry_week(all[i as int]));
        if cur.len() > 0 && w != prev_week {
            proof {
                let run = all.skip(start);
                assert forall|k: int|
                    1 <= k < i - start implies entry_week(#[trigger] run[k]) == entry_week(
                    run[k - 1],
                ) by {
                    assert(run[k] == all[start + k]);
                    assert(run[k - 1] == all[start + k - 1]);
                }
                assert(run[i - start - 1] == all[i - 1]);
                assert(run[i - start] == all[i as int]);
                assert(entry_week(run[i - start]) != entry_week(run[i - start - 1]));
                lemma_week_run_exact(run, i - start);
                assert(buckets_spec(run) == seq![run.take(i - start)] + buckets_spec(
                    run.skip(i - start),
                ));
                assert(run.take(i - start) =~= all.subrange(start, i as int));
                assert(run.skip(i - start) =~= all.skip(i as int));
            }
            let ghost curview = cur@;
            buckets.push(cur);
            cur = Vec::new();
            proof {
                assert(buckets@.map_values(|b: Vec<DatedEntry>| b@) =~= bviews0.push(curview)) by {
                    assert(forall|k: int|
                        0 <= k < buckets@.len() ==> buckets@.map_values(|b: Vec<DatedEntry>| b@)[k]
                            == #[trigger] buckets@[k]@);
                    assert(forall|k: int|
                        0 <= k < bviews0.len() ==> bviews0[k] == #[trigger] buckets@[k]@);
                }
                assert(bviews0.push(curview) =~= bviews0 + seq![curview]);
                assert((bviews0 + seq![curview]) + buckets_spec(all.skip(i as int)) =~= bviews0 + (
                seq![curview] + buckets_spec(all.skip(i as int))));
                start = i as int;
            }
        }
        let ghost cur0 = cur@;
        cur.push(e);
        proof {
            assert(cur@ =~= all.subrange(start, i as int + 1)) by {
                assert(cur0 == all.subrange(start, i as int));
                assert(cur@ == cur0.push(all[i as int]));
            }
        }
        prev_week = w;
        i = i + 1;
    }
    if cur.len() > 0 {
        proof {
            let run = all.skip(start);
            assert forall|k: int|
                1 <= k < n - start implies entry_week(#[trigger] run[k]) == entry_week(
                run[k - 1],
            ) by {
                assert(run[k] == all[start + k]);
                assert(run[k - 1] == all[start + k - 1]);
            }
            assert(run.len() == n - start);
            lemma_week_run_exact(run, n - start);
            assert(buckets_spec(run) == seq![run.take(n - start)] + buckets_spec(
                run.skip(n - start),
            ));
            assert(run.skip(n - start).len() == 0);
            assert(buckets_spec(run.skip(n - start)) =~= Seq::<Seq<DatedEntry>>::empty());
            assert(run.take(n - start) =~= all.subrange(start, n as int));
        }
        let ghost bviews0 = buckets@.map_values(|b: Vec<DatedEntry>| b@);
        let ghost curview = cur@;
        buckets.push(cur);
        proof {
            assert(buckets@.map_values(|b: Vec<DatedEntry>| b@) =~= bviews0.push(curview)) by {
                assert(forall|k: int|
                    0 <= k < buckets@.len() ==> buckets@.map_values(|b: Vec<DatedEntry>| b@)[k]
                        == #[trigger] buckets@[k]@);
                assert(forall|k: int|
                    0 <= k < bviews0.len() ==> bviews0[k] == #[trigger] buckets@[k]@);
            }
            assert(bviews0.push(curview) =~= bviews0 + seq![curview]);
            assert((bviews0 + seq![curview]) + Seq::<Seq<DatedEntry>>::empty() =~= bviews0 + (seq![
                curview,
            ] + Seq::<Seq<DatedEntry>>::empty()));
            assert(seq![curview] + Seq::<Seq<DatedEntry>>::empty() =~= seq![curview]);
        }
    } else {
        proof {
            assert(start == 0 && n == 0);
            assert(buckets_spec(all).len() == 0);
        }
    }
    proof {
        assert(forall|k: int|
            0 <= k < buckets@.len() ==> buckets@.map_values(|b: Vec<DatedEntry>| b@)[k]
                == #[trigger] buckets@[k]@);
    }
    buckets
}


/// The entries of a bucket, without their date keys.
pub open spec fn bucket_entries_of(b: Seq<DatedEntry>) -> Seq<ClassbookEntry> {
    b.map_values(|de: DatedEntry| de.entry)
}

/// Drops the date keys from every bucket.
fn strip_buckets(bs: Vec<Vec<DatedEntry>>) -> (r: Vec<Vec<ClassbookEntry>>)
    ensures
        r@.len() == bs@.len(),
        forall|i: int| 0 <= i < r@.len() ==> #[trigger] r@[i]@ == bucket_entries_of(bs@[i]@),
{
    let ghost all = bs@;
    let mut bs = bs;
    let mut out: Vec<Vec<ClassbookEntry>> = Vec::new();
    let mut i: usize = 0;
    let n = bs.len();
    while i < n
        invariant
            i <= n,
            n == all.len(),
            bs@ == all.skip(i as int),
            out@.len() == i,
            forall|j: int| 0 <= j < i ==> #[trigger] out@[j]@ == bucket_entries_of(all[j]@),
        decreases n - i,
    {
        let mut b = bs.remove(0);
        proof {
            assert(all.skip(i as int)[0] == all[i as int]);
            assert(b == all[i as int]);
            assert(all.skip(i as int).skip(1) =~= all.skip(i as int + 1));
        }
        let ghost bv = b@;
        let mut stripped: Vec<ClassbookEntry> = Vec::new();
        let mut k: usize = 0;
        let m = b.len();
        while k < m
            invariant
                k <= m,
                m == bv.len(),
                b@ == bv.skip(k as int),
                stripped@ == bv.take(k as int).map_values(|de: DatedEntry| de.entry),
            decreases m - k,
        {
            let de = b.remove(0);
            proof {
                assert(bv.skip(k as int)[0] == bv[k as int]);
                assert(de == bv[k as int]);
                assert(bv.skip(k as int).skip(1) =~= bv.skip(k as int + 1));
            }
            stripped.push(de.entry);
            proof {
                assert(bv.take(k as int + 1) =~= bv.take(k as int).push(bv[k as int]));
                assert(stripped@ =~= bv.take(k as int + 1).map_values(
                    |de2: DatedEntry| de2.entry,
                )) by {
                    assert(forall|q: int|
                        0 <= q < bv.take(k as int + 1).len() ==> bv.take(k as int + 1).map_values(
                            |de2: DatedEntry| de2.entry,
                        )[q] == #[trigger] bv.take(k as int + 1)[q].entry);
                    assert(forall|q: int|
                        0 <= q < bv.take(k as int).len() ==> bv.take(k as int).map_values(
                            |de2: DatedEntry| de2.entry,
                        )[q] == #[trigger] bv.take(k as int)[q].entry);
                }
            }
            k = k + 1;
        }
        proof {
            assert(bv.take(m as int) =~= bv);
        }
        out.push(stripped);
        i = i + 1;
    }
    out
}

/// Reconciles the entries against the attendance records and partitions
/// them into ISO-week buckets.
///
/// The entries are sorted by parsed date, ties broken by the weekday
/// label; an entry with a matching, invalid attendance record has its
/// activities replaced by the single health-absence label; the sorted
/// sequence is split wherever the ISO week number changes between
/// neighbours.  A date that fails to parse is a fatal error, and the
/// result is the bucket partition of a sorted rearrangement of the keyed
/// entries.  An empty input yields zero buckets.
pub fn reconcile_and_bucket(entries: Vec<ClassbookEntry>, attendances: &Vec<Attendance>) -> (r:
    Result<Vec<Vec<ClassbookEntry>>, DateParseError>)
    ensures
        r is Ok <==> (forall|i: int|
            0 <= i < entries@.len() ==> dmy2_parse(#[trigger] entries@[i].date@) is Some),
        r matches Ok(bs) ==> exists|sorted_ds: Seq<DatedEntry>, ov: Seq<DatedEntry>|
            #![trigger sorted_ds.len(), ov.len()]
            {
                &&& entries_sorted(sorted_ds)
                &&& sorted_ds.to_multiset() == keyed_spec(entries@).to_multiset()
                &&& sorted_ds.len() == entries@.len()
                &&& ov.len() == sorted_ds.len()
                &&& (forall|i: int|
                    0 <= i < ov.len() ==> reconcile_shape(sorted_ds[i], #[trigger] ov[i]))
                &&& (atts_unsigned(attendances@) ==> (forall|i: int|
                    0 <= i < ov.len() ==> reconciled_entry(
                        sorted_ds[i],
                        #[trigger] ov[i],
                        attendances@,
                    )))
                &&& (forall|i: int| 0 <= i < ov.len() ==> dated_wf(#[trigger] ov[i]))
                &&& bs@.len() == buckets_spec(ov).len()
                &&& (forall|i: int|
                    0 <= i < bs@.len() ==> #[trigger] bs@[i]@ == bucket_entries_of(
                        buckets_spec(ov)[i],
                    ))
            },
{
    let ghost entries0 = entries@;
    let dated = match date_entries(entries) {
        Ok(ds) => ds,
        Err(e) => {
            return Err(e);
        },
    };
    let sorted = sort_entries(dated);
    proof {
        broadcast use group_to_multiset_ensures;

        assert forall|i: int| 0 <= i < sorted@.len() implies dated_wf(#[trigger] sorted@[i]) by {
            assert(sorted@.contains(sorted@[i]));
            assert(sorted@.to_multiset().count(sorted@[i]) > 0);
            assert(keyed_spec(entries0).to_multiset().count(sorted@[i]) > 0);
            assert(keyed_spec(entries0).contains(sorted@[i]));
            let j = choose|j: int|
                0 <= j < keyed_spec(entries0).len() && keyed_spec(entries0)[j] == sorted@[i];
            assert(keyed_spec(entries0)[j] == key_of(entries0[j]));
        }
    }
    let ghost sorted_view = sorted@;
    let reconciled = override_entries(sorted, attendances);
    proof {
        assert forall|i: int|
            0 <= i < reconciled@.len() implies dated_wf(#[trigger] reconciled@[i]) by {
            assert(reconcile_shape(sorted_view[i], reconciled@[i]));
        }
    }
    let ghost ov_view = reconciled@;
    let bucketed = bucket_entries(reconciled);
    let stripped = strip_buckets(bucketed);
    proof {
        assert({
            &&& entries_sorted(sorted_view)
            &&& sorted_view.to_multiset() == keyed_spec(entries0).to_multiset()
            &&& sorted_view.len() == entries0.len()
            &&& ov_view.len() == sorted_view.len()
            &&& (forall|i: int|
                0 <= i < ov_view.len() ==> reconcile_shape(sorted_view[i], #[trigger] ov_view[i]))
            &&& (atts_unsigned(attendances@) ==> (forall|i: int|
                0 <= i < ov_view.len() ==> reconciled_entry(
                    sorted_view[i],
                    #[trigger] ov_view[i],
                    attendances@,
                )))
            &&& (forall|i: int| 0 <= i < ov_view.len() ==> dated_wf(#[trigger] ov_view[i]))
            &&& stripped@.len() == buckets_spec(ov_view).len()
            &&& (forall|i: int|
                0 <= i < stripped@.len() ==> #[trigger] stripped@[i]@ == bucket_entries_of(
                    buckets_spec(ov_view)[i],
                ))
        });
    }
    Ok(stripped)
}

} // verus!
