//! The report renderer: one sheet per ISO-week bucket on a fixed
//! ten-column grid.
//!
//! The geometry — merge spans, borders, font sizes, row and column
//! dimensions — is fixed data of the layout; only the text and number
//! values are driven by the entries.  A sheet is a list of placed cells in
//! emission order; writing the cells into a workbook file happens outside
//! the library.
use vstd::prelude::*;

use crate::chars::{
    chars_vec, contains_sub, dec_str, push_all, spec_contains, string_from_chars, u32_dec_chars,
};
use crate::attendance::Attendance;
use crate::buckets::{
    atts_unsigned, bucket_entries_of, buckets_spec, dated_wf, entries_sorted, keyed_spec,
    lemma_buckets_shape, reconcile_and_bucket, reconcile_shape, reconciled_entry, DateParseError,
    DatedEntry,
};
use crate::config::Config;
use crate::course::Course;
use crate::dates::dmy2_parse;
use crate::entry::{seq_views, ClassbookEntry};

verus! {

/// A border line style.
#[derive(Clone, Copy, PartialEq, Eq, Structural)]
pub enum Border {
    NoLine,
    Thin,
    Medium,
}

/// Horizontal alignment of a cell.
#[derive(Clone, Copy, PartialEq, Eq, Structural)]
pub enum HAlign {
    Unset,
    Center,
    Left,
}

/// Vertical alignment of a cell.
#[derive(Clone, Copy, PartialEq, Eq, Structural)]
pub enum VAlign {
    Unset,
    Center,
    Bottom,
}

/// The format of one cell.  An absent font name means the standard font
/// of the layout; an absent border leaves the side untouched.
pub struct CellFormat {
    pub font_size: Option<u32>,
    pub font_name: Option<String>,
    pub align: HAlign,
    pub valign: VAlign,
    pub border_top: Option<Border>,
    pub border_bottom: Option<Border>,
    pub border_left: Option<Border>,
    pub border_right: Option<Border>,
    pub text_wrap: bool,
    pub bold: bool,
    pub rotation: Option<i16>,
}

impl CellFormat {
    /// The neutral format: no explicit size, the standard font, vertical
    /// centering and nothing else.
    pub fn new() -> (r: CellFormat)
        ensures
            r.font_size is None,
            r.font_name is None,
            r.align == HAlign::Unset,
            r.valign == VAlign::Center,
            r.border_top is None,
            r.border_bottom is None,
            r.border_left is None,
            r.border_right is None,
            !r.text_wrap,
            !r.bold,
            r.rotation is None,
    {
        CellFormat {
            font_size: None,
            font_name: None,
            align: HAlign::Unset,
            valign: VAlign::Center,
            border_top: None,
            border_bottom: None,
            border_left: None,
            border_right: None,
            text_wrap: false,
            bold: false,
            rotation: None,
        }
    }

    /// The shared header format: centered both ways, thin borders on
    /// three sides, and the given size and right border.
    pub fn common(font_size: Option<u32>, border_right: Option<Border>) -> (r: CellFormat)
        ensures
            r == fmt_common(font_size, border_right),
    {
        CellFormat {
            font_size,
            font_name: None,
            align: HAlign::Center,
            valign: VAlign::Center,
            border_top: Some(Border::Thin),
            border_bottom: Some(Border::Thin),
            border_left: Some(Border::Thin),
            border_right,
            text_wrap: false,
            bold: false,
            rotation: None,
        }
    }
}

/// What a cell holds.
pub enum CellContent {
    Text(String),
    Number(u32),
    FormulaNumber(String, u32),
    Blank,
}

/// One placed cell: its span — a single cell when the span collapses to
/// one position, a merged range otherwise — its content, and its format.
pub struct SheetCell {
    pub start_row: usize,
    pub start_col: usize,
    pub end_row: usize,
    pub end_col: usize,
    pub content: CellContent,
    pub format: CellFormat,
}

/// One sheet of the output document: its name and its cells in emission
/// order.
pub struct Sheet {
    pub name: String,
    pub cells: Vec<SheetCell>,
}

/// The width of each of the ten columns, in hundredths of a character
/// width.
pub fn column_width_hundredths(col: usize) -> (w: u32)
    requires
        col < 10,
    ensures
        w == spec_column_width_hundredths(col as int),
{
    if col == 0 {
        283
    } else if col == 1 {
        433
    } else if col == 2 {
        1750
    } else if col == 3 {
        250
    } else if col == 4 {
        1750
    } else if col == 5 {
        55
    } else if col == 6 {
        1750
    } else if col == 7 {
        64
    } else if col == 8 {
        2217
    } else {
        733
    }
}

/// The column width table.
pub open spec fn spec_column_width_hundredths(col: int) -> u32 {
    if col == 0 {
        283
    } else if col == 1 {
        433
    } else if col == 2 {
        1750
    } else if col == 3 {
        250
    } else if col == 4 {
        1750
    } else if col == 5 {
        55
    } else if col == 6 {
        1750
    } else if col == 7 {
        64
    } else if col == 8 {
        2217
    } else {
        733
    }
}

/// The height of the second row, in hundredths of a point.
pub fn header_row_height_hundredths() -> (r: u32)
    ensures
        r == 2325,
{
    2325
}

/// The height of the body rows (the fourth to the fifty-ninth), in
/// hundredths of a point.
pub fn body_row_height_hundredths() -> (r: u32)
    ensures
        r == 1300,
{
    1300
}


/// The shared header format as a value: centered both ways, thin borders
/// on three sides, and the given size and right border.
pub open spec fn fmt_common(font_size: Option<u32>, border_right: Option<Border>) -> CellFormat {
    CellFormat {
        font_size,
        font_name: None,
        align: HAlign::Center,
        valign: VAlign::Center,
        border_top: Some(Border::Thin),
        border_bottom: Some(Border::Thin),
        border_left: Some(Border::Thin),
        border_right,
        text_wrap: false,
        bold: false,
        rotation: None,
    }
}

/// The format of the blank cells of the right edge.
pub open spec fn fmt_blank() -> CellFormat {
    CellFormat {
        font_size: None,
        font_name: None,
        align: HAlign::Unset,
        valign: VAlign::Center,
        border_top: None,
        border_bottom: None,
        border_left: None,
        border_right: Some(Border::Medium),
        text_wrap: false,
        bold: false,
        rotation: None,
    }
}

/// The format of the first-row header cells, derived from the cell's
/// place on the grid: a medium top border, a thin bottom border, a medium
/// left border at the left edge and a medium right border at the right
/// edge.
pub open spec fn fmt_header(start_col: int, end_col: int, font_size: u32, bold: bool) -> CellFormat {
    CellFormat {
        font_size: Some(font_size),
        font_name: None,
        align: HAlign::Unset,
        valign: VAlign::Center,
        border_top: Some(Border::Medium),
        border_bottom: Some(Border::Thin),
        border_left: if start_col == 0 {
            Some(Border::Medium)
        } else {
            Some(Border::NoLine)
        },
        border_right: if end_col == 9 {
            Some(Border::Medium)
        } else {
            Some(Border::NoLine)
        },
        text_wrap: false,
        bold,
        rotation: None,
    }
}

/// The borderless format of the second-row information cells, with an
/// optional medium left border for the left caption.
pub open spec fn fmt_info(font_size: u32, border_left: Option<Border>) -> CellFormat {
    CellFormat {
        font_size: Some(font_size),
        font_name: None,
        align: HAlign::Unset,
        valign: VAlign::Center,
        border_top: None,
        border_bottom: None,
        border_left,
        border_right: None,
        text_wrap: false,
        bold: false,
        rotation: None,
    }
}

/// The format of the rotated day labels along the left edge.
pub open spec fn fmt_day_label() -> CellFormat {
    CellFormat {
        font_size: Some(8),
        font_name: None,
        align: HAlign::Center,
        valign: VAlign::Center,
        border_top: Some(Border::Thin),
        border_bottom: Some(Border::Thin),
        border_left: Some(Border::Medium),
        border_right: Some(Border::Thin),
        text_wrap: false,
        bold: false,
        rotation: Some(90),
    }
}

/// The format of the third-row caption at the left edge.
pub open spec fn fmt_grid_caption() -> CellFormat {
    CellFormat {
        font_size: Some(10),
        font_name: None,
        align: HAlign::Center,
        valign: VAlign::Center,
        border_top: Some(Border::Thin),
        border_bottom: Some(Border::Thin),
        border_left: Some(Border::Medium),
        border_right: Some(Border::Thin),
        text_wrap: false,
        bold: false,
        rotation: None,
    }
}

/// The format of the weekday activity blocks.
pub open spec fn fmt_activity() -> CellFormat {
    CellFormat {
        font_size: Some(10),
        font_name: None,
        align: HAlign::Left,
        valign: VAlign::Center,
        border_top: Some(Border::Thin),
        border_bottom: Some(Border::Thin),
        border_left: Some(Border::Thin),
        border_right: Some(Border::Thin),
        text_wrap: true,
        bold: false,
        rotation: None,
    }
}

/// The format of the weekday hour cells.
pub open spec fn fmt_hour() -> CellFormat {
    CellFormat {
        font_size: Some(10),
        font_name: None,
        align: HAlign::Center,
        valign: VAlign::Unset,
        border_top: None,
        border_bottom: Some(Border::Thin),
        border_left: None,
        border_right: Some(Border::Medium),
        text_wrap: false,
        bold: false,
        rotation: None,
    }
}

/// The format of the empty bar of the weekly-total row.
pub open spec fn fmt_total_bar() -> CellFormat {
    CellFormat {
        font_size: None,
        font_name: None,
        align: HAlign::Center,
        valign: VAlign::Unset,
        border_top: Some(Border::Medium),
        border_bottom: Some(Border::Medium),
        border_left: Some(Border::Medium),
        border_right: None,
        text_wrap: false,
        bold: false,
        rotation: None,
    }
}

/// The format of the weekly-total caption.
pub open spec fn fmt_total_caption() -> CellFormat {
    CellFormat {
        font_size: Some(10),
        font_name: None,
        align: HAlign::Center,
        valign: VAlign::Unset,
        border_top: Some(Border::Medium),
        border_bottom: Some(Border::Medium),
        border_left: None,
        border_right: Some(Border::Thin),
        text_wrap: false,
        bold: false,
        rotation: None,
    }
}

/// The format of the weekly-total formula cell.
pub open spec fn fmt_total_formula() -> CellFormat {
    CellFormat {
        font_size: Some(10),
        font_name: None,
        align: HAlign::Center,
        valign: VAlign::Unset,
        border_top: Some(Border::Medium),
        border_bottom: Some(Border::Medium),
        border_left: Some(Border::Thin),
        border_right: Some(Border::Medium),
        text_wrap: false,
        bold: false,
        rotation: None,
    }
}

/// The format of the signature frame on the left of the signature band.
pub open spec fn fmt_signature_frame() -> CellFormat {
    CellFormat {
        font_size: Some(8),
        font_name: None,
        align: HAlign::Center,
        valign: VAlign::Center,
        border_top: Some(Border::Medium),
        border_bottom: Some(Border::Medium),
        border_left: Some(Border::Medium),
        border_right: None,
        text_wrap: false,
        bold: false,
        rotation: None,
    }
}

/// The format of the signee captions below the signature line.
pub open spec fn fmt_signee_caption() -> CellFormat {
    CellFormat {
        font_size: Some(8),
        font_name: None,
        align: HAlign::Center,
        valign: VAlign::Bottom,
        border_top: Some(Border::Thin),
        border_bottom: None,
        border_left: None,
        border_right: None,
        text_wrap: false,
        bold: false,
        rotation: None,
    }
}

/// The format of the empty span that closes the sheet at the bottom.
pub open spec fn fmt_bottom_span() -> CellFormat {
    CellFormat {
        font_size: Some(8),
        font_name: None,
        align: HAlign::Center,
        valign: VAlign::Bottom,
        border_top: None,
        border_bottom: Some(Border::Medium),
        border_left: None,
        border_right: None,
        text_wrap: false,
        bold: false,
        rotation: None,
    }
}

/// The format of the bottom-right corner cell.
pub open spec fn fmt_bottom_corner() -> CellFormat {
    CellFormat {
        font_size: None,
        font_name: None,
        align: HAlign::Center,
        valign: VAlign::Unset,
        border_top: None,
        border_bottom: Some(Border::Medium),
        border_left: None,
        border_right: Some(Border::Medium),
        text_wrap: false,
        bold: false,
        rotation: None,
    }
}

/// The cell at position `i` of the sheet spans the given range.
pub open spec fn cell_span(s: Sheet, i: int, sr: int, sc: int, er: int, ec: int) -> bool {
    &&& s.cells@[i].start_row == sr
    &&& s.cells@[i].start_col == sc
    &&& s.cells@[i].end_row == er
    &&& s.cells@[i].end_col == ec
}

/// The cell at position `i` of the sheet holds the given text.
pub open spec fn cell_text(s: Sheet, i: int, t: Seq<char>) -> bool {
    s.cells@[i].content matches CellContent::Text(x) && x@ == t
}

/// The cell at position `i` of the sheet carries the given format.
pub open spec fn cell_fmt(s: Sheet, i: int, f: CellFormat) -> bool {
    s.cells@[i].format == f
}

/// The row of the weekday's hour cell, per weekday index Monday to
/// Friday.
pub open spec fn spec_hour_row(wd: int) -> int {
    if wd == 0 {
        13
    } else if wd == 1 {
        24
    } else if wd == 2 {
        35
    } else if wd == 3 {
        46
    } else {
        57
    }
}

/// The merge span of the weekday's activity block, per weekday index
/// Monday to Friday: start row, start column, end row, end column.
pub open spec fn spec_activity_span(wd: int) -> (int, int, int, int) {
    if wd == 0 {
        (3, 1, 13, 8)
    } else if wd == 1 {
        (14, 1, 24, 8)
    } else if wd == 2 {
        (25, 1, 35, 8)
    } else if wd == 3 {
        (36, 1, 46, 8)
    } else {
        (47, 1, 57, 8)
    }
}

/// The weekday label of the entries, per weekday index Monday to Friday.
pub open spec fn spec_weekday_key(wd: int) -> Seq<char> {
    if wd == 0 {
        "Mon"@
    } else if wd == 1 {
        "Tue"@
    } else if wd == 2 {
        "Wed"@
    } else if wd == 3 {
        "Thu"@
    } else {
        "Fri"@
    }
}

/// The configured zero-hour keywords: a day whose activities mention one
/// of them counts zero hours.
pub open spec fn zero_keywords() -> Seq<Seq<char>> {
    seq![
        "Kein Unterricht"@,
        "Feiertag"@,
        "FREI"@,
        "Frei"@,
        "Unterrichtsfrei"@,
        "Keine Teilnahme am Unterricht aus gesundheitlichen Gr\u{00fc}nden"@,
    ]
}

/// True when some activity contains some zero-hour keyword.
pub open spec fn has_zero_keyword(acts: Seq<Seq<char>>) -> bool {
    exists|i: int, k: int|
        0 <= i < acts.len() && 0 <= k < zero_keywords().len() && spec_contains(
            acts[i],
            zero_keywords()[k],
        )
}

/// The hours of a day: zero when a zero-hour keyword occurs in the
/// activities, eight otherwise.
pub open spec fn spec_hours(acts: Seq<Seq<char>>) -> u32 {
    if has_zero_keyword(acts) {
        0
    } else {
        8
    }
}

/// Computes the hour value of an entry: `0` when any of its activities
/// contains a zero-hour keyword, `8` otherwise.
pub fn entry_hours(entry: &ClassbookEntry) -> (r: u32)
    ensures
        r == spec_hours(seq_views(entry.activities@)),
{
    let ghost acts = seq_views(entry.activities@);
    let mut kws: Vec<Vec<char>> = Vec::new();
    kws.push(chars_vec("Kein Unterricht"));
    kws.push(chars_vec("Feiertag"));
    kws.push(chars_vec("FREI"));
    kws.push(chars_vec("Frei"));
    kws.push(chars_vec("Unterrichtsfrei"));
    kws.push(chars_vec("Keine Teilnahme am Unterricht aus gesundheitlichen Gr\u{00fc}nden"));
    proof {
        assert(kws@.len() == zero_keywords().len());
        assert(forall|k: int| 0 <= k < kws@.len() ==> #[trigger] kws@[k]@ == zero_keywords()[k]);
    }
    let n = entry.activities.len();
    let mut i: usize = 0;
    while i < n
        invariant
            i <= n,
            n == entry.activities@.len(),
            acts == seq_views(entry.activities@),
            kws@.len() == zero_keywords().len(),
            forall|k: int| 0 <= k < kws@.len() ==> #[trigger] kws@[k]@ == zero_keywords()[k],
            forall|j: int, k: int|
                0 <= j < i && 0 <= k < zero_keywords().len() ==> !spec_contains(
                    #[trigger] acts[j],
                    #[trigger] zero_keywords()[k],
                ),
        decreases n - i,
    {
        let av = chars_vec(entry.activities[i].as_str());
        proof {
            assert(acts[i as int] == entry.activities@[i as int]@);
        }
        let mut k: usize = 0;
        let m = kws.len();
        while k < m
            invariant
                k <= m,
                m == kws@.len(),
                m == zero_keywords().len(),
                av@ == acts[i as int],
                i < acts.len(),
                acts == seq_views(entry.activities@),
                forall|k2: int| 0 <= k2 < kws@.len() ==> #[trigger] kws@[k2]@ == zero_keywords()[k2],
                forall|k2: int|
                    0 <= k2 < k ==> !spec_contains(acts[i as int], #[trigger] zero_keywords()[k2]),
            decreases m - k,
        {
            if contains_sub(&av, &kws[k]) {
                proof {
                    assert(spec_contains(acts[i as int], zero_keywords()[k as int]));
                    assert(has_zero_keyword(acts));
                }
                return 0;
            }
            k = k + 1;
        }
        i = i + 1;
    }
    proof {
        assert(!has_zero_keyword(acts));
    }
    8
}

/// The separator-joined activity text before trailing-separator removal:
/// each activity followed by a space when it ends in `?` or `!`, and by a
/// comma and a space otherwise.
pub open spec fn acts_join(acts: Seq<Seq<char>>) -> Seq<char>
    decreases acts.len(),
{
    if acts.len() == 0 {
        Seq::<char>::empty()
    } else {
        let a = acts[0];
        let sep: Seq<char> = if a.len() > 0 && (a.last() == '?' || a.last() == '!') {
            seq![' ']
        } else {
            seq![',', ' ']
        };
        a + sep + acts_join(acts.skip(1))
    }
}

/// Every trailing `, ` removed, repeatedly.
pub open spec fn strip_comma_space_end(t: Seq<char>) -> Seq<char>
    decreases t.len(),
{
    if t.len() >= 2 && t[t.len() - 2] == ',' && t[t.len() - 1] == ' ' {
        strip_comma_space_end(t.take(t.len() - 2))
    } else {
        t
    }
}

/// The activity cell text of a day: the separator-joined activities with
/// the trailing separator removed.
pub open spec fn spec_activities_line(acts: Seq<Seq<char>>) -> Seq<char> {
    strip_comma_space_end(acts_join(acts))
}

/// Builds the activity cell text of an entry.
pub fn activities_line(entry: &ClassbookEntry) -> (r: String)
    ensures
        r@ == spec_activities_line(seq_views(entry.activities@)),
{
    let ghost acts = seq_views(entry.activities@);
    let mut joined: Vec<char> = Vec::new();
    let mut i: usize = 0;
    let n = entry.activities.len();
    assert(acts.skip(0) =~= acts);
    assert(joined@ + acts_join(acts) =~= acts_join(acts));
    while i < n
        invariant
            i <= n,
            n == entry.activities@.len(),
            acts == seq_views(entry.activities@),
            acts_join(acts) == joined@ + acts_join(acts.skip(i as int)),
        decreases n - i,
    {
        let ghost joined0 = joined@;
        let ghost s = acts.skip(i as int);
        let av = chars_vec(entry.activities[i].as_str());
        proof {
            assert(acts[i as int] == entry.activities@[i as int]@);
            assert(s[0] == acts[i as int]);
        }
        push_all(&mut joined, &av);
        let ends_question = av.len() > 0 && (av[av.len() - 1] == '?' || av[av.len() - 1] == '!');
        let ghost sep: Seq<char> = if s[0].len() > 0 && (s[0].last() == '?' || s[0].last() == '!') {
            seq![' ']
        } else {
            seq![',', ' ']
        };
        if ends_question {
            joined.push(' ');
        } else {
            joined.push(',');
            joined.push(' ');
        }
        i = i + 1;
        proof {
            assert(joined@ =~= joined0 + (s[0] + sep));
            assert(s.skip(1) =~= acts.skip(i as int));
            assert(acts_join(s) == s[0] + sep + acts_join(acts.skip(i as int)));
            assert((joined0 + (s[0] + sep)) + acts_join(acts.skip(i as int)) =~= joined0 + ((s[0]
                + sep) + acts_join(acts.skip(i as int))));
            assert((s[0] + sep) + acts_join(acts.skip(i as int)) =~= s[0] + sep + acts_join(
                acts.skip(i as int),
            ));
        }
    }
    proof {
        assert(acts.skip(n as int) =~= Seq::<Seq<char>>::empty());
        assert(joined@ + Seq::<char>::empty() =~= joined@);
    }
    let mut t = joined;
    while t.len() >= 2 && t[t.len() - 2] == ',' && t[t.len() - 1] == ' '
        invariant
            strip_comma_space_end(t@) == spec_activities_line(acts),
        decreases t@.len(),
    {
        let ghost t0 = t@;
        t.pop();
        t.pop();
        proof {
            assert(t@ =~= t0.take(t0.len() - 2));
        }
    }
    string_from_chars(&t)
}

/// The first entry of a bucket with the given weekday label.
pub open spec fn first_with_weekday(b: Seq<ClassbookEntry>, wd: Seq<char>) -> Option<
    ClassbookEntry,
>
    decreases b.len(),
{
    if b.len() == 0 {
        None
    } else if b[0].weekday@ == wd {
        Some(b[0])
    } else {
        first_with_weekday(b.skip(1), wd)
    }
}

/// The last entry of a bucket with the given weekday label.
pub open spec fn last_with_weekday(b: Seq<ClassbookEntry>, wd: Seq<char>) -> Option<ClassbookEntry>
    decreases b.len(),
{
    if b.len() == 0 {
        None
    } else if b.last().weekday@ == wd {
        Some(b.last())
    } else {
        last_with_weekday(b.drop_last(), wd)
    }
}

/// The hour value written for a weekday: the hours of the first entry
/// with that label, or zero when the bucket has none.
pub open spec fn spec_weekday_hours(b: Seq<ClassbookEntry>, wd: Seq<char>) -> u32 {
    match first_with_weekday(b, wd) {
        Some(e) => spec_hours(seq_views(e.activities@)),
        None => 0,
    }
}

/// The activity text written for a weekday: the joined activities of the
/// last entry with that label, or the empty string when the bucket has
/// none.
pub open spec fn spec_weekday_activities(b: Seq<ClassbookEntry>, wd: Seq<char>) -> Seq<char> {
    match last_with_weekday(b, wd) {
        Some(e) => spec_activities_line(seq_views(e.activities@)),
        None => Seq::<char>::empty(),
    }
}

/// The first match is at the first matching index.
proof fn lemma_first_weekday_at(b: Seq<ClassbookEntry>, wd: Seq<char>, j: int)
    requires
        0 <= j < b.len(),
        b[j].weekday@ == wd,
        forall|k: int| 0 <= k < j ==> (#[trigger] b[k]).weekday@ != wd,
    ensures
        first_with_weekday(b, wd) == Some(b[j]),
    decreases b.len(),
{
    if j > 0 {
        assert(forall|k: int| 0 <= k < j - 1 ==> b.skip(1)[k] == #[trigger] b[k + 1]);
        lemma_first_weekday_at(b.skip(1), wd, j - 1);
    }
}

/// Without a matching index there is no first match.
proof fn lemma_first_weekday_none(b: Seq<ClassbookEntry>, wd: Seq<char>)
    requires
        forall|k: int| 0 <= k < b.len() ==> (#[trigger] b[k]).weekday@ != wd,
    ensures
        first_with_weekday(b, wd) is None,
    decreases b.len(),
{
    if b.len() > 0 {
        assert(forall|k: int| 0 <= k < b.skip(1).len() ==> b.skip(1)[k] == #[trigger] b[k + 1]);
        lemma_first_weekday_none(b.skip(1), wd);
    }
}

/// The last match is at the last matching index.
proof fn lemma_last_weekday_at(b: Seq<ClassbookEntry>, wd: Seq<char>, j: int)
    requires
        0 <= j < b.len(),
        b[j].weekday@ == wd,
        forall|k: int| j < k < b.len() ==> (#[trigger] b[k]).weekday@ != wd,
    ensures
        last_with_weekday(b, wd) == Some(b[j]),
    decreases b.len(),
{
    if j < b.len() - 1 {
        assert(b.drop_last() =~= b.take(b.len() - 1));
        assert(forall|k: int|
            0 <= k < b.drop_last().len() ==> b.drop_last()[k] == #[trigger] b[k]);
        lemma_last_weekday_at(b.drop_last(), wd, j);
    }
}

/// Without a matching index there is no last match.
proof fn lemma_last_weekday_none(b: Seq<ClassbookEntry>, wd: Seq<char>)
    requires
        forall|k: int| 0 <= k < b.len() ==> (#[trigger] b[k]).weekday@ != wd,
    ensures
        last_with_weekday(b, wd) is None,
    decreases b.len(),
{
    if b.len() > 0 {
        assert(forall|k: int|
            0 <= k < b.drop_last().len() ==> b.drop_last()[k] == #[trigger] b[k]);
        lemma_last_weekday_none(b.drop_last(), wd);
    }
}

/// The hour value of a weekday in a bucket: the hours of the first entry
/// carrying the label, or zero without one.
pub fn weekday_hours(b: &Vec<ClassbookEntry>, wd: &str) -> (r: u32)
    ensures
        r == spec_weekday_hours(b@, wd@),
{
    let wdv = chars_vec(wd);
    let n = b.len();
    let mut i: usize = 0;
    while i < n
        invariant
            i <= n,
            n == b@.len(),
            wdv@ == wd@,
            forall|k: int| 0 <= k < i ==> (#[trigger] b@[k]).weekday@ != wd@,
        decreases n - i,
    {
        let ev = chars_vec(b[i].weekday.as_str());
        if vec_chars_eq(&ev, &wdv) {
            proof {
                lemma_first_weekday_at(b@, wd@, i as int);
            }
            return entry_hours(&b[i]);
        }
        i = i + 1;
    }
    proof {
        lemma_first_weekday_none(b@, wd@);
    }
    0
}

/// The activity text of a weekday in a bucket: the joined activities of
/// the last entry carrying the label, or the empty string without one.
pub fn weekday_activities(b: &Vec<ClassbookEntry>, wd: &str) -> (r: String)
    ensures
        r@ == spec_weekday_activities(b@, wd@),
{
    let wdv = chars_vec(wd);
    let n = b.len();
    let mut i: usize = n;
    while i > 0
        invariant
            i <= n,
            n == b@.len(),
            wdv@ == wd@,
            forall|k: int| i <= k < n ==> (#[trigger] b@[k]).weekday@ != wd@,
        decreases i,
    {
        i = i - 1;
        let ev = chars_vec(b[i].weekday.as_str());
        if vec_chars_eq(&ev, &wdv) {
            proof {
                lemma_last_weekday_at(b@, wd@, i as int);
            }
            return activities_line(&b[i]);
        }
    }
    proof {
        lemma_last_weekday_none(b@, wd@);
    }
    String::new()
}

/// Equality of two character vectors.
fn vec_chars_eq(a: &Vec<char>, b: &Vec<char>) -> (r: bool)
    ensures
        r == (a@ == b@),
{
    if a.len() != b.len() {
        return false;
    }
    let n = a.len();
    let mut i: usize = 0;
    while i < n
        invariant
            i <= n,
            n == a@.len(),
            n == b@.len(),
            forall|k: int| 0 <= k < i ==> a@[k] == b@[k],
        decreases n - i,
    {
        if a[i] != b[i] {
            return false;
        }
        i = i + 1;
    }
    assert(a@ =~= b@);
    true
}

/// The sheet name of a bucket: its first and last date joined by a dash.
pub open spec fn date_range_spec(b: Seq<ClassbookEntry>) -> Seq<char> {
    b[0].date@ + " - "@ + b.last().date@
}

/// The fixed captions and geometry of a rendered sheet: every cell that
/// the entries do not drive, with its text, span and format.  The layout
/// is a constant of the sheet, never derived from data, so this holds of
/// every sheet the renderer yields.
pub open spec fn sheet_fixed_layout(s: Sheet) -> bool {
    &&& cell_span(s, 61, 0, 0, 0, 2) && cell_text(s, 61, "Ausbildungsnachweis"@) && cell_fmt(
        s,
        61,
        fmt_header(0, 2, 13, true),
    )
    &&& cell_span(s, 62, 0, 3, 0, 3) && cell_text(s, 62, "Nr."@) && cell_fmt(
        s,
        62,
        fmt_header(3, 3, 11, false),
    )
    &&& cell_span(s, 64, 0, 5, 0, 5) && cell_text(s, 64, Seq::<char>::empty()) && cell_fmt(
        s,
        64,
        fmt_header(5, 5, 10, false),
    )
    &&& cell_span(s, 65, 0, 6, 0, 6) && cell_text(s, 65, "Woche vom bis"@) && cell_fmt(
        s,
        65,
        fmt_header(6, 6, 11, false),
    )
    &&& cell_span(s, 66, 0, 7, 0, 7) && cell_text(s, 66, Seq::<char>::empty()) && cell_fmt(
        s,
        66,
        fmt_header(7, 7, 10, false),
    )
    &&& cell_span(s, 68, 0, 9, 0, 9) && cell_text(s, 68, Seq::<char>::empty()) && cell_fmt(
        s,
        68,
        fmt_header(9, 9, 10, false),
    )
    &&& cell_span(s, 70, 1, 6, 1, 6) && cell_text(s, 70, "Ausbilder:"@) && cell_fmt(
        s,
        70,
        fmt_info(10, None),
    )
    &&& cell_span(s, 72, 1, 0, 1, 3) && cell_text(s, 72, "Ort der Ausbildung:"@) && cell_fmt(
        s,
        72,
        fmt_info(11, Some(Border::Medium)),
    )
    &&& cell_span(s, 73, 3, 0, 13, 0) && cell_text(s, 73, "Montag"@) && cell_fmt(
        s,
        73,
        fmt_day_label(),
    )
    &&& cell_span(s, 74, 14, 0, 24, 0) && cell_text(s, 74, "Dienstag"@) && cell_fmt(
        s,
        74,
        fmt_day_label(),
    )
    &&& cell_span(s, 75, 25, 0, 35, 0) && cell_text(s, 75, "Mittwoch"@) && cell_fmt(
        s,
        75,
        fmt_day_label(),
    )
    &&& cell_span(s, 76, 36, 0, 46, 0) && cell_text(s, 76, "Donnerstag"@) && cell_fmt(
        s,
        76,
        fmt_day_label(),
    )
    &&& cell_span(s, 77, 47, 0, 57, 0) && cell_text(s, 77, "Freitag"@) && cell_fmt(
        s,
        77,
        fmt_day_label(),
    )
    &&& cell_span(s, 78, 2, 0, 2, 0) && cell_text(s, 78, "Tag"@) && cell_fmt(
        s,
        78,
        fmt_grid_caption(),
    )
    &&& cell_span(s, 79, 2, 1, 2, 8) && cell_text(
        s,
        79,
        "Betriebliche T\u{00e4}tigkeiten, Unterweisungen, Berufsschulunterricht"@,
    ) && cell_fmt(s, 79, fmt_common(Some(10), Some(Border::Thin)))
    &&& cell_span(s, 80, 2, 9, 2, 9) && cell_text(s, 80, "Stunden"@) && cell_fmt(
        s,
        80,
        fmt_common(Some(10), Some(Border::Medium)),
    )
    &&& cell_span(s, 91, 58, 0, 58, 7) && cell_text(s, 91, Seq::<char>::empty()) && cell_fmt(
        s,
        91,
        fmt_total_bar(),
    )
    &&& cell_span(s, 92, 58, 8, 58, 8) && cell_text(s, 92, "Wochenstunden"@) && cell_fmt(
        s,
        92,
        fmt_total_caption(),
    )
    &&& cell_span(s, 94, 59, 0, 62, 1) && cell_text(s, 94, "Unterschrift:"@) && cell_fmt(
        s,
        94,
        fmt_signature_frame(),
    )
    &&& cell_span(s, 96, 61, 2, 61, 2) && cell_text(s, 96, "Auszubildener"@) && cell_fmt(
        s,
        96,
        fmt_signee_caption(),
    )
    &&& cell_span(s, 97, 61, 4, 61, 4) && cell_text(s, 97, "Ausbilder"@) && cell_fmt(
        s,
        97,
        fmt_signee_caption(),
    )
    &&& cell_span(s, 98, 61, 6, 61, 6) && cell_text(s, 98, "Gesetzlicher Vertreter"@) && cell_fmt(
        s,
        98,
        fmt_signee_caption(),
    )
    &&& cell_span(s, 99, 61, 8, 61, 8) && cell_text(s, 99, "Sonstige Sichtvermerke"@) && cell_fmt(
        s,
        99,
        fmt_signee_caption(),
    )
    &&& cell_span(s, 100, 62, 2, 62, 8) && cell_text(s, 100, Seq::<char>::empty()) && cell_fmt(
        s,
        100,
        fmt_bottom_span(),
    )
    &&& cell_span(s, 101, 62, 9, 62, 9) && cell_text(s, 101, Seq::<char>::empty()) && cell_fmt(
        s,
        101,
        fmt_bottom_corner(),
    )
}

/// The obligations of one rendered sheet, stated over the cell list in
/// emission order: the name and the data-driven cells as functions of the
/// bucket, and the fixed captions and geometry in full.
pub open spec fn sheet_renders(s: Sheet, b: Seq<ClassbookEntry>, week_number: u32) -> bool {
    &&& s.name@ == date_range_spec(b)
    &&& s.cells@.len() == 102
    &&& (forall|j: int|
        0 <= j < 61 ==> (#[trigger] s.cells@[j]).start_row == j + 1 && s.cells@[j].start_col == 9
            && s.cells@[j].end_row == j + 1 && s.cells@[j].end_col == 9 && s.cells@[j].content
            is Blank && s.cells@[j].format == fmt_blank())
    &&& (s.cells@[63].content matches CellContent::Text(t) && t@ == dec_str(week_number + 1))
    &&& cell_span(s, 63, 0, 4, 0, 4) && cell_fmt(s, 63, fmt_header(4, 4, 10, false))
    &&& (s.cells@[67].content matches CellContent::Text(t) && t@ == date_range_spec(b))
    &&& cell_span(s, 67, 0, 8, 0, 8) && cell_fmt(s, 67, fmt_header(8, 8, 10, false))
    &&& (forall|wd: int|
        0 <= wd < 5 ==> (#[trigger] s.cells@[81 + wd]).start_row == spec_activity_span(wd).0
            && s.cells@[81 + wd].start_col == spec_activity_span(wd).1 && s.cells@[81
            + wd].end_row == spec_activity_span(wd).2 && s.cells@[81 + wd].end_col
            == spec_activity_span(wd).3 && s.cells@[81 + wd].format == fmt_activity())
    &&& (forall|wd: int|
        0 <= wd < 5 ==> match (#[trigger] s.cells@[81 + wd]).content {
            CellContent::Text(t) => t@ == spec_weekday_activities(b, spec_weekday_key(wd)),
            _ => false,
        })
    &&& (forall|wd: int|
        0 <= wd < 5 ==> (#[trigger] s.cells@[86 + wd]).start_row == spec_hour_row(wd)
            && s.cells@[86 + wd].start_col == 9 && s.cells@[86 + wd].end_row == spec_hour_row(wd)
            && s.cells@[86 + wd].end_col == 9 && s.cells@[86 + wd].content == CellContent::Number(
            spec_weekday_hours(b, spec_weekday_key(wd)),
        ) && s.cells@[86 + wd].format == fmt_hour())
    &&& (s.cells@[93].content matches CellContent::FormulaNumber(f, v) && f@ == "=SUM(J14:J58)"@
        && v == 30)
    &&& cell_span(s, 93, 58, 9, 58, 9) && cell_fmt(s, 93, fmt_total_formula())
    &&& sheet_fixed_layout(s)
}

/// The configuration-driven obligations of one rendered sheet, their
/// spans and formats included.
pub open spec fn sheet_renders_config(s: Sheet, cfg: crate::config::GlobalConfig) -> bool {
    &&& (s.cells@[69].content matches CellContent::Text(t) && t@ == cfg.company.location@)
    &&& cell_span(s, 69, 1, 4, 1, 4) && cell_fmt(s, 69, fmt_info(10, None))
    &&& (s.cells@[71].content matches CellContent::Text(t) && t@ == cfg.company.educator_name@)
    &&& cell_span(s, 71, 1, 8, 1, 8) && cell_fmt(s, 71, fmt_info(10, None))
    &&& (s.cells@[95].content matches CellContent::Text(t) && t@ == cfg.signature.signature@)
    &&& cell_span(s, 95, 60, 2, 60, 2)
    &&& (s.cells@[95].format.font_name matches Some(f) && f@ == cfg.signature.font_name@)
    &&& s.cells@[95].format.font_size == Some(cfg.signature.font_size)
    &&& s.cells@[95].format.align == HAlign::Center
    &&& s.cells@[95].format.valign == VAlign::Unset
    &&& s.cells@[95].format.border_top is None
    &&& s.cells@[95].format.border_bottom == Some(Border::Thin)
    &&& s.cells@[95].format.border_left is None
    &&& s.cells@[95].format.border_right is None
    &&& !s.cells@[95].format.text_wrap
    &&& !s.cells@[95].format.bold
    &&& s.cells@[95].format.rotation is None
}


/// The format of the grid header cells of the first row, derived from the
/// cell's place on the grid: a medium top border, a thin bottom border, a
/// medium left border at the left edge and a medium right border at the
/// right edge.
fn header_cell_format(start_col: usize, end_col: usize, font_size: u32, bold: bool) -> (r:
    CellFormat)
    ensures
        r == fmt_header(start_col as int, end_col as int, font_size, bold),
{
    let mut f = CellFormat::new();
    f.font_size = Some(font_size);
    f.border_top = Some(Border::Medium);
    f.border_bottom = Some(Border::Thin);
    f.bold = bold;
    f.border_left = if start_col == 0 {
        Some(Border::Medium)
    } else {
        Some(Border::NoLine)
    };
    f.border_right = if end_col == 9 {
        Some(Border::Medium)
    } else {
        Some(Border::NoLine)
    };
    f
}

/// Renders one week bucket onto the fixed grid: the blank right-edge
/// column, the header band with the week number and date range, the day
/// header, the per-weekday activity blocks and hour cells, and the
/// summary band, as one sheet named by the bucket's date range.
#[verifier::rlimit(100)]
#[verifier::spinoff_prover]
pub fn render_week(bucket: &Vec<ClassbookEntry>, week_number: u32, config: &Config) -> (r: Sheet)
    requires
        bucket@.len() >= 1,
        week_number < 0xffff_ffff_u32,
    ensures
        sheet_renders(r, bucket@, week_number),
        sheet_renders_config(r, config.spec_global()),
{
    // The sheet name: the bucket's first and last date joined by a dash.
    let mut namev = chars_vec(bucket[0].date.as_str());
    let dash = chars_vec(" - ");
    push_all(&mut namev, &dash);
    let lastv = chars_vec(bucket[bucket.len() - 1].date.as_str());
    push_all(&mut namev, &lastv);
    proof {
        assert(bucket@.last() == bucket@[bucket@.len() - 1]);
    }
    let name = string_from_chars(&namev);
    let date_range = string_from_chars(&namev);

    let mut cells: Vec<SheetCell> = Vec::new();

    // The blank cells of the right edge, rows two to sixty-two.
    let mut row: usize = 1;
    while row < 62
        invariant
            1 <= row <= 62,
            cells@.len() == row - 1,
            forall|j: int|
                0 <= j < row - 1 ==> (#[trigger] cells@[j]).start_row == j + 1
                    && cells@[j].start_col == 9 && cells@[j].end_row == j + 1
                    && cells@[j].end_col == 9 && cells@[j].content is Blank
                    && cells@[j].format == fmt_blank(),
        decreases 62 - row,
    {
        cells.push(SheetCell {
            start_row: row,
            start_col: 9,
            end_row: row,
            end_col: 9,
            content: CellContent::Blank,
            format: CellFormat {
                font_size: None,
                font_name: None,
                align: HAlign::Unset,
                valign: VAlign::Center,
                border_top: None,
                border_bottom: None,
                border_left: None,
                border_right: Some(Border::Medium),
                text_wrap: false,
                bold: false,
                rotation: None,
            },
        });
        row = row + 1;
    }
    assert(cells@.len() == 61);

    // The header band of the first row.
    cells.push(SheetCell {
        start_row: 0,
        start_col: 0,
        end_row: 0,
        end_col: 2,
        content: CellContent::Text(String::from_str("Ausbildungsnachweis")),
        format: header_cell_format(0, 2, 13, true),
    });
    cells.push(SheetCell {
        start_row: 0,
        start_col: 3,
        end_row: 0,
        end_col: 3,
        content: CellContent::Text(String::from_str("Nr.")),
        format: header_cell_format(3, 3, 11, false),
    });
    let wn = u32_dec_chars(week_number + 1);
    cells.push(SheetCell {
        start_row: 0,
        start_col: 4,
        end_row: 0,
        end_col: 4,
        content: CellContent::Text(string_from_chars(&wn)),
        format: header_cell_format(4, 4, 10, false),
    });
    cells.push(SheetCell {
        start_row: 0,
        start_col: 5,
        end_row: 0,
        end_col: 5,
        content: CellContent::Text(String::new()),
        format: header_cell_format(5, 5, 10, false),
    });
    cells.push(SheetCell {
        start_row: 0,
        start_col: 6,
        end_row: 0,
        end_col: 6,
        content: CellContent::Text(String::from_str("Woche vom bis")),
        format: header_cell_format(6, 6, 11, false),
    });
    cells.push(SheetCell {
        start_row: 0,
        start_col: 7,
        end_row: 0,
        end_col: 7,
        content: CellContent::Text(String::new()),
        format: header_cell_format(7, 7, 10, false),
    });
    cells.push(SheetCell {
        start_row: 0,
        start_col: 8,
        end_row: 0,
        end_col: 8,
        content: CellContent::Text(date_range),
        format: header_cell_format(8, 8, 10, false),
    });
    cells.push(SheetCell {
        start_row: 0,
        start_col: 9,
        end_row: 0,
        end_col: 9,
        content: CellContent::Text(String::new()),
        format: header_cell_format(9, 9, 10, false),
    });
    assert(cells@.len() == 69);

    // The second row: location, instructor caption and educator.
    let mut info_fmt = CellFormat::new();
    info_fmt.font_size = Some(10);
    let location = {
        let lv = chars_vec(config.get_location());
        string_from_chars(&lv)
    };
    cells.push(SheetCell {
        start_row: 1,
        start_col: 4,
        end_row: 1,
        end_col: 4,
        content: CellContent::Text(location),
        format: CellFormat {
            font_size: Some(10),
            font_name: None,
            align: HAlign::Unset,
            valign: VAlign::Center,
            border_top: None,
            border_bottom: None,
            border_left: None,
            border_right: None,
            text_wrap: false,
            bold: false,
            rotation: None,
        },
    });
    cells.push(SheetCell {
        start_row: 1,
        start_col: 6,
        end_row: 1,
        end_col: 6,
        content: CellContent::Text(String::from_str("Ausbilder:")),
        format: CellFormat {
            font_size: Some(10),
            font_name: None,
            align: HAlign::Unset,
            valign: VAlign::Center,
            border_top: None,
            border_bottom: None,
            border_left: None,
            border_right: None,
            text_wrap: false,
            bold: false,
            rotation: None,
        },
    });
    let educator = {
        let ev = chars_vec(config.get_educator_name());
        string_from_chars(&ev)
    };
    cells.push(SheetCell {
        start_row: 1,
        start_col: 8,
        end_row: 1,
        end_col: 8,
        content: CellContent::Text(educator),
        format: CellFormat {
            font_size: Some(10),
            font_name: None,
            align: HAlign::Unset,
            valign: VAlign::Center,
            border_top: None,
            border_bottom: None,
            border_left: None,
            border_right: None,
            text_wrap: false,
            bold: false,
            rotation: None,
        },
    });
    cells.push(SheetCell {
        start_row: 1,
        start_col: 0,
        end_row: 1,
        end_col: 3,
        content: CellContent::Text(String::from_str("Ort der Ausbildung:")),
        format: CellFormat {
            font_size: Some(11),
            font_name: None,
            align: HAlign::Unset,
            valign: VAlign::Center,
            border_top: None,
            border_bottom: None,
            border_left: Some(Border::Medium),
            border_right: None,
            text_wrap: false,
            bold: false,
            rotation: None,
        },
    });
    assert(cells@.len() == 73);

    // The rotated day labels along the left edge.
    let day_fmt = {
        let mut f = CellFormat::common(Some(8), Some(Border::Thin));
        f.border_left = Some(Border::Medium);
        f.rotation = Some(90);
        f
    };
    assert(day_fmt == fmt_day_label());
    cells.push(SheetCell {
        start_row: 3,
        start_col: 0,
        end_row: 13,
        end_col: 0,
        content: CellContent::Text(String::from_str("Montag")),
        format: CellFormat { font_name: None, ..day_fmt },
    });
    cells.push(SheetCell {
        start_row: 14,
        start_col: 0,
        end_row: 24,
        end_col: 0,
        content: CellContent::Text(String::from_str("Dienstag")),
        format: CellFormat { font_name: None, ..day_fmt },
    });
    cells.push(SheetCell {
        start_row: 25,
        start_col: 0,
        end_row: 35,
        end_col: 0,
        content: CellContent::Text(String::from_str("Mittwoch")),
        format: CellFormat { font_name: None, ..day_fmt },
    });
    cells.push(SheetCell {
        start_row: 36,
        start_col: 0,
        end_row: 46,
        end_col: 0,
        content: CellContent::Text(String::from_str("Donnerstag")),
        format: CellFormat { font_name: None, ..day_fmt },
    });
    cells.push(SheetCell {
        start_row: 47,
        start_col: 0,
        end_row: 57,
        end_col: 0,
        content: CellContent::Text(String::from_str("Freitag")),
        format: CellFormat { font_name: None, ..day_fmt },
    });

    // The third row: captions of the grid columns.
    let tag_fmt = {
        let mut f = CellFormat::common(Some(10), Some(Border::Thin));
        f.border_left = Some(Border::Medium);
        f
    };
    assert(tag_fmt == fmt_grid_caption());
    cells.push(SheetCell {
        start_row: 2,
        start_col: 0,
        end_row: 2,
        end_col: 0,
        content: CellContent::Text(String::from_str("Tag")),
        format: tag_fmt,
    });
    cells.push(SheetCell {
        start_row: 2,
        start_col: 1,
        end_row: 2,
        end_col: 8,
        content: CellContent::Text(
            String::from_str(
                "Betriebliche T\u{00e4}tigkeiten, Unterweisungen, Berufsschulunterricht",
            ),
        ),
        format: CellFormat::common(Some(10), Some(Border::Thin)),
    });
    cells.push(SheetCell {
        start_row: 2,
        start_col: 9,
        end_row: 2,
        end_col: 9,
        content: CellContent::Text(String::from_str("Stunden")),
        format: CellFormat::common(Some(10), Some(Border::Medium)),
    });
    assert(cells@.len() == 81);

    // The per-weekday activity blocks.
    let act_fmt = CellFormat {
        font_size: Some(10),
        font_name: None,
        align: HAlign::Left,
        valign: VAlign::Center,
        border_top: Some(Border::Thin),
        border_bottom: Some(Border::Thin),
        border_left: Some(Border::Thin),
        border_right: Some(Border::Thin),
        text_wrap: true,
        bold: false,
        rotation: None,
    };
    let mon_acts = weekday_activities(bucket, "Mon");
    cells.push(SheetCell {
        start_row: 3,
        start_col: 1,
        end_row: 13,
        end_col: 8,
        content: CellContent::Text(mon_acts),
        format: CellFormat { font_name: None, ..act_fmt },
    });
    let tue_acts = weekday_activities(bucket, "Tue");
    cells.push(SheetCell {
        start_row: 14,
        start_col: 1,
        end_row: 24,
        end_col: 8,
        content: CellContent::Text(tue_acts),
        format: CellFormat { font_name: None, ..act_fmt },
    });
    let wed_acts = weekday_activities(bucket, "Wed");
    cells.push(SheetCell {
        start_row: 25,
        start_col: 1,
        end_row: 35,
        end_col: 8,
        content: CellContent::Text(wed_acts),
        format: CellFormat { font_name: None, ..act_fmt },
    });
    let thu_acts = weekday_activities(bucket, "Thu");
    cells.push(SheetCell {
        start_row: 36,
        start_col: 1,
        end_row: 46,
        end_col: 8,
        content: CellContent::Text(thu_acts),
        format: CellFormat { font_name: None, ..act_fmt },
    });
    let fri_acts = weekday_activities(bucket, "Fri");
    cells.push(SheetCell {
        start_row: 47,
        start_col: 1,
        end_row: 57,
        end_col: 8,
        content: CellContent::Text(fri_acts),
        format: CellFormat { font_name: None, ..act_fmt },
    });
    assert(cells@.len() == 86);

    // The per-weekday hour cells.
    let hour_fmt = CellFormat {
        font_size: Some(10),
        font_name: None,
        align: HAlign::Center,
        valign: VAlign::Unset,
        border_top: None,
        border_bottom: Some(Border::Thin),
        border_left: None,
        border_right: Some(Border::Medium),
        text_wrap: false,
        bold: false,
        rotation: None,
    };
    let mon_hours = weekday_hours(bucket, "Mon");
    cells.push(SheetCell {
        start_row: 13,
        start_col: 9,
        end_row: 13,
        end_col: 9,
        content: CellContent::Number(mon_hours),
        format: CellFormat { font_name: None, ..hour_fmt },
    });
    let tue_hours = weekday_hours(bucket, "Tue");
    cells.push(SheetCell {
        start_row: 24,
        start_col: 9,
        end_row: 24,
        end_col: 9,
        content: CellContent::Number(tue_hours),
        format: CellFormat { font_name: None, ..hour_fmt },
    });
    let wed_hours = weekday_hours(bucket, "Wed");
    cells.push(SheetCell {
        start_row: 35,
        start_col: 9,
        end_row: 35,
        end_col: 9,
        content: CellContent::Number(wed_hours),
        format: CellFormat { font_name: None, ..hour_fmt },
    });
    let thu_hours = weekday_hours(bucket, "Thu");
    cells.push(SheetCell {
        start_row: 46,
        start_col: 9,
        end_row: 46,
        end_col: 9,
        content: CellContent::Number(thu_hours),
        format: CellFormat { font_name: None, ..hour_fmt },
    });
    let fri_hours = weekday_hours(bucket, "Fri");
    cells.push(SheetCell {
        start_row: 57,
        start_col: 9,
        end_row: 57,
        end_col: 9,
        content: CellContent::Number(fri_hours),
        format: CellFormat { font_name: None, ..hour_fmt },
    });
    assert(cells@.len() == 91);

    // The summary band.
    cells.push(SheetCell {
        start_row: 58,
        start_col: 0,
        end_row: 58,
        end_col: 7,
        content: CellContent::Text(String::new()),
        format: CellFormat {
            font_size: None,
            font_name: None,
            align: HAlign::Center,
            valign: VAlign::Unset,
            border_top: Some(Border::Medium),
            border_bottom: Some(Border::Medium),
            border_left: Some(Border::Medium),
            border_right: None,
            text_wrap: false,
            bold: false,
            rotation: None,
        },
    });
    cells.push(SheetCell {
        start_row: 58,
        start_col: 8,
        end_row: 58,
        end_col: 8,
        content: CellContent::Text(String::from_str("Wochenstunden")),
        format: CellFormat {
            font_size: Some(10),
            font_name: None,
            align: HAlign::Center,
            valign: VAlign::Unset,
            border_top: Some(Border::Medium),
            border_bottom: Some(Border::Medium),
            border_left: None,
            border_right: Some(Border::Thin),
            text_wrap: false,
            bold: false,
            rotation: None,
        },
    });
    cells.push(SheetCell {
        start_row: 58,
        start_col: 9,
        end_row: 58,
        end_col: 9,
        content: CellContent::FormulaNumber(String::from_str("=SUM(J14:J58)"), 30),
        format: CellFormat {
            font_size: Some(10),
            font_name: None,
            align: HAlign::Center,
            valign: VAlign::Unset,
            border_top: Some(Border::Medium),
            border_bottom: Some(Border::Medium),
            border_left: Some(Border::Thin),
            border_right: Some(Border::Medium),
            text_wrap: false,
            bold: false,
            rotation: None,
        },
    });
    cells.push(SheetCell {
        start_row: 59,
        start_col: 0,
        end_row: 62,
        end_col: 1,
        content: CellContent::Text(String::from_str("Unterschrift:")),
        format: CellFormat {
            font_size: Some(8),
            font_name: None,
            align: HAlign::Center,
            valign: VAlign::Center,
            border_top: Some(Border::Medium),
            border_bottom: Some(Border::Medium),
            border_left: Some(Border::Medium),
            border_right: None,
            text_wrap: false,
            bold: false,
            rotation: None,
        },
    });
    let signature = {
        let sv = chars_vec(config.get_signature());
        string_from_chars(&sv)
    };
    let signature_font = {
        let fv = chars_vec(config.get_font_name());
        string_from_chars(&fv)
    };
    cells.push(SheetCell {
        start_row: 60,
        start_col: 2,
        end_row: 60,
        end_col: 2,
        content: CellContent::Text(signature),
        format: CellFormat {
            font_size: Some(config.get_font_size()),
            font_name: Some(signature_font),
            align: HAlign::Center,
            valign: VAlign::Unset,
            border_top: None,
            border_bottom: Some(Border::Thin),
            border_left: None,
            border_right: None,
            text_wrap: false,
            bold: false,
            rotation: None,
        },
    });
    let caption_fmt = CellFormat {
        font_size: Some(8),
        font_name: None,
        align: HAlign::Center,
        valign: VAlign::Bottom,
        border_top: Some(Border::Thin),
        border_bottom: None,
        border_left: None,
        border_right: None,
        text_wrap: false,
        bold: false,
        rotation: None,
    };
    cells.push(SheetCell {
        start_row: 61,
        start_col: 2,
        end_row: 61,
        end_col: 2,
        content: CellContent::Text(String::from_str("Auszubildener")),
        format: CellFormat { font_name: None, ..caption_fmt },
    });
    cells.push(SheetCell {
        start_row: 61,
        start_col: 4,
        end_row: 61,
        end_col: 4,
        content: CellContent::Text(String::from_str("Ausbilder")),
        format: CellFormat { font_name: None, ..caption_fmt },
    });
    cells.push(SheetCell {
        start_row: 61,
        start_col: 6,
        end_row: 61,
        end_col: 6,
        content: CellContent::Text(String::from_str("Gesetzlicher Vertreter")),
        format: CellFormat { font_name: None, ..caption_fmt },
    });
    cells.push(SheetCell {
        start_row: 61,
        start_col: 8,
        end_row: 61,
        end_col: 8,
        content: CellContent::Text(String::from_str("Sonstige Sichtvermerke")),
        format: CellFormat { font_name: None, ..caption_fmt },
    });
    cells.push(SheetCell {
        start_row: 62,
        start_col: 2,
        end_row: 62,
        end_col: 8,
        content: CellContent::Text(String::new()),
        format: CellFormat {
            font_size: Some(8),
            font_name: None,
            align: HAlign::Center,
            valign: VAlign::Bottom,
            border_top: None,
            border_bottom: Some(Border::Medium),
            border_left: None,
            border_right: None,
            text_wrap: false,
            bold: false,
            rotation: None,
        },
    });
    cells.push(SheetCell {
        start_row: 62,
        start_col: 9,
        end_row: 62,
        end_col: 9,
        content: CellContent::Text(String::new()),
        format: CellFormat {
            font_size: None,
            font_name: None,
            align: HAlign::Center,
            valign: VAlign::Unset,
            border_top: None,
            border_bottom: Some(Border::Medium),
            border_left: None,
            border_right: Some(Border::Medium),
            text_wrap: false,
            bold: false,
            rotation: None,
        },
    });
    assert(cells@.len() == 102);

    Sheet { name, cells }
}


/// The entries of all courses' classbooks, in course order.
pub open spec fn course_entries(cs: Seq<Course>) -> Seq<ClassbookEntry>
    decreases cs.len(),
{
    if cs.len() == 0 {
        Seq::<ClassbookEntry>::empty()
    } else {
        cs[0].classbook.entries@ + course_entries(cs.skip(1))
    }
}

/// A partition has at most one bucket per entry.
proof fn lemma_buckets_count(s: Seq<DatedEntry>)
    ensures
        buckets_spec(s).len() <= s.len(),
    decreases s.len(),
{
    if s.len() > 0 {
        crate::buckets::lemma_week_run_bounds(s);
        let r = crate::buckets::week_run(s);
        lemma_buckets_count(s.skip(r));
    }
}

/// Flattens the classbook entries of all courses, in course order.
fn flatten_course_entries(courses: Vec<Course>) -> (r: Vec<ClassbookEntry>)
    ensures
        r@ == course_entries(courses@),
{
    let ghost all = courses@;
    let mut courses = courses;
    let mut out: Vec<ClassbookEntry> = Vec::new();
    let mut i: usize = 0;
    let n = courses.len();
    assert(all.skip(0) =~= all);
    assert(out@ + course_entries(all) =~= course_entries(all));
    while i < n
        invariant
            i <= n,
            n == all.len(),
            courses@ == all.skip(i as int),
            course_entries(all) == out@ + course_entries(all.skip(i as int)),
        decreases n - i,
    {
        let ghost out0 = out@;
        let ghost s = all.skip(i as int);
        let course = courses.remove(0);
        proof {
            assert(s[0] == all[i as int]);
            assert(course == s[0]);
            assert(s.skip(1) =~= all.skip(i + 1));
        }
        let mut es = course.classbook.entries;
        let ghost esv = es@;
        let m = es.len();
        let mut k: usize = 0;
        while es.len() > 0
            invariant
                k <= m,
                m == esv.len(),
                es@ == esv.skip(k as int),
                out@ == out0 + esv.take(k as int),
            decreases esv.len() - k,
        {
            let e = es.remove(0);
            proof {
                assert(esv.skip(k as int)[0] == esv[k as int]);
            }
            out.push(e);
            proof {
                assert(esv.take(k + 1 as int) =~= esv.take(k as int).push(esv[k as int]));
                assert(out@ =~= out0 + esv.take(k + 1 as int));
                assert(esv.skip(k as int).skip(1) =~= esv.skip(k + 1 as int));
            }
            k = k + 1;
        }
        proof {
            assert(esv.skip(k as int).len() == 0);
            assert(esv.take(k as int) =~= esv);
        }
        i = i + 1;
        proof {
            assert(course_entries(s) == esv + course_entries(all.skip(i as int)));
            assert((out0 + esv) + course_entries(all.skip(i as int)) =~= out0 + (esv
                + course_entries(all.skip(i as int))));
        }
    }
    assert(all.skip(n as int).len() == 0);
    assert(course_entries(all.skip(n as int)) =~= Seq::<ClassbookEntry>::empty());
    assert(out@ + Seq::<ClassbookEntry>::empty() =~= out@);
    out
}

/// Builds the whole report: the entries of all courses are flattened,
/// reconciled against the attendance records, bucketed into ISO weeks,
/// and each bucket rendered as one sheet, numbered in bucket order.  A
/// date that fails to parse is a fatal error; no entries yield no sheets.
pub fn build_report(courses: Vec<Course>, attendances: &Vec<Attendance>, config: &Config) -> (r:
    Result<Vec<Sheet>, DateParseError>)
    requires
        course_entries(courses@).len() < 0xffff_ffff,
    ensures
        r is Ok <==> (forall|i: int|
            0 <= i < course_entries(courses@).len() ==> dmy2_parse(
                #[trigger] course_entries(courses@)[i].date@,
            ) is Some),
        course_entries(courses@).len() == 0 ==> (r matches Ok(sheets) && sheets@.len() == 0),
        r matches Ok(sheets) ==> exists|sorted_ds: Seq<DatedEntry>, ov: Seq<DatedEntry>|
            #![trigger sorted_ds.len(), ov.len()]
            {
                &&& entries_sorted(sorted_ds)
                &&& sorted_ds.to_multiset() == keyed_spec(course_entries(courses@)).to_multiset()
                &&& sorted_ds.len() == course_entries(courses@).len()
                &&& ov.len() == sorted_ds.len()
                &&& (forall|i: int|
                    0 <= i < ov.len() ==> reconcile_shape(sorted_ds[i], #[trigger] ov[i]))
                &&& (atts_unsigned(attendances@) ==> (forall|i: int|
                    0 <= i < ov.len() ==> reconciled_entry(
                        sorted_ds[i],
                        #[trigger] ov[i],
                        attendances@,
                    )))
                &&& (forall|i: int| 0 <= i < ov.len() ==> dated_wf(#[trigger] ov[i]))
                &&& sheets@.len() == buckets_spec(ov).len()
                &&& (forall|i: int|
                    0 <= i < sheets@.len() ==> sheet_renders(
                        #[trigger] sheets@[i],
                        bucket_entries_of(buckets_spec(ov)[i]),
                        i as u32,
                    ) && sheet_renders_config(sheets@[i], config.spec_global()))
            },
{
    let ghost courses0 = courses@;
    let all_entries = flatten_course_entries(courses);
    let ghost flat = all_entries@;
    let total = all_entries.len();
    let buckets = match reconcile_and_bucket(all_entries, attendances) {
        Ok(bs) => bs,
        Err(e) => {
            return Err(e);
        },
    };
    let ghost (sorted_ds, ov) = choose|sorted_ds: Seq<DatedEntry>, ov: Seq<DatedEntry>|
        #![trigger sorted_ds.len(), ov.len()]
        {
            &&& entries_sorted(sorted_ds)
            &&& sorted_ds.to_multiset() == keyed_spec(flat).to_multiset()
            &&& sorted_ds.len() == flat.len()
            &&& ov.len() == sorted_ds.len()
            &&& (forall|i: int|
                0 <= i < ov.len() ==> reconcile_shape(sorted_ds[i], #[trigger] ov[i]))
            &&& (atts_unsigned(attendances@) ==> (forall|i: int|
                0 <= i < ov.len() ==> reconciled_entry(
                    sorted_ds[i],
                    #[trigger] ov[i],
                    attendances@,
                )))
            &&& (forall|i: int| 0 <= i < ov.len() ==> dated_wf(#[trigger] ov[i]))
            &&& buckets@.len() == buckets_spec(ov).len()
            &&& (forall|i: int|
                0 <= i < buckets@.len() ==> #[trigger] buckets@[i]@ == bucket_entries_of(
                    buckets_spec(ov)[i],
                ))
        };
    proof {
        lemma_buckets_shape(ov);
        lemma_buckets_count(ov);
    }
    let mut sheets: Vec<Sheet> = Vec::new();
    let mut i: usize = 0;
    let bn = buckets.len();
    while i < bn
        invariant
            i <= bn,
            bn == buckets@.len(),
            bn == buckets_spec(ov).len(),
            bn <= ov.len(),
            ov.len() == flat.len(),
            flat.len() < 0xffff_ffff,
            sheets@.len() == i,
            forall|j: int|
                0 <= j < bn ==> #[trigger] buckets@[j]@ == bucket_entries_of(buckets_spec(ov)[j]),
            forall|j: int| 0 <= j < buckets_spec(ov).len() ==> #[trigger] buckets_spec(ov)[j].len() >= 1,
            forall|j: int|
                0 <= j < i ==> sheet_renders(
                    #[trigger] sheets@[j],
                    bucket_entries_of(buckets_spec(ov)[j]),
                    j as u32,
                ) && sheet_renders_config(sheets@[j], config.spec_global()),
        decreases bn - i,
    {
        proof {
            assert(buckets@[i as int]@ == bucket_entries_of(buckets_spec(ov)[i as int]));
            assert(buckets_spec(ov)[i as int].len() >= 1);
        }
        let sheet = render_week(&buckets[i], i as u32, config);
        sheets.push(sheet);
        i = i + 1;
    }
    Ok(sheets)
}

} // verus!
