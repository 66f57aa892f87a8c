//! Courses, their classbooks, and the parsing of the course listing.
use vstd::prelude::*;

use crate::chars::{
    chars_vec, join_space, push_all, spec_has_at, split_ws_spec, split_ws_vec, string_from_chars,
    subrange_vec, views_of,
};
use crate::config::Config;
use crate::entry::ClassbookEntry;

verus! {

/// A course's classbook: the page it was found on, its identifier, the
/// resolved direct link to the entry table, and the extracted entries.  A
/// course whose classbook was not fetched carries an empty placeholder,
/// never an absent one.
pub struct Classbook {
    pub id: String,
    pub link: String,
    pub direct_link: Option<String>,
    pub entries: Vec<ClassbookEntry>,
}

impl Classbook {
    /// The empty placeholder classbook.
    pub fn placeholder() -> (r: Classbook)
        ensures
            classbook_is_placeholder(r),
    {
        Classbook {
            id: String::new(),
            link: String::new(),
            direct_link: Some(String::new()),
            entries: Vec::new(),
        }
    }
}

/// A course of the listing: its identifier, its cleaned name, its link,
/// the curriculum module code that prefixes the name, the duration that
/// ends the name, and its classbook.
pub struct Course {
    pub id: String,
    pub name: String,
    pub link: String,
    pub course: String,
    pub duration: String,
    pub classbook: Classbook,
}

/// One raw row of the course listing, as selected from the overview page:
/// the course identifier attribute and the title text.
pub struct CourseListing {
    pub course_id: String,
    pub course_name: String,
}

/// The path under the base address that addresses a course by identifier.
pub open spec fn course_path() -> Seq<char> {
    "/course/view.php?id="@
}

/// Builds the link of a course from its identifier.
pub fn generate_course_link(config: &Config, course_id: &str) -> (r: String)
    ensures
        r@ == config.spec_global().website.base_url@ + course_path() + course_id@,
{
    let mut out = chars_vec(config.get_base_url());
    let path = chars_vec("/course/view.php?id=");
    push_all(&mut out, &path);
    let id = chars_vec(course_id);
    push_all(&mut out, &id);
    string_from_chars(&out)
}

/// A listing row is accepted when its title has at least two
/// whitespace-separated fields and the first begins with the curriculum
/// module prefix `LF`.
pub open spec fn listing_accepted(l: CourseListing) -> bool {
    let parts = split_ws_spec(l.course_name@);
    parts.len() >= 2 && spec_has_at(parts[0], 0, seq!['L', 'F'])
}

/// A classbook is the empty placeholder: empty identifier and link, a
/// present but empty direct link, and no entries.  A course whose
/// classbook was not fetched carries this value, never an absent one.
pub open spec fn classbook_is_placeholder(cb: Classbook) -> bool {
    &&& cb.id@ == Seq::<char>::empty()
    &&& cb.link@ == Seq::<char>::empty()
    &&& (cb.direct_link matches Some(l) && l@ == Seq::<char>::empty())
    &&& cb.entries@ == Seq::<ClassbookEntry>::empty()
}

/// The course that an accepted listing row yields.
pub open spec fn course_matches_listing(c: Course, l: CourseListing, base_url: Seq<char>) -> bool {
    let parts = split_ws_spec(l.course_name@);
    &&& c.id@ == l.course_id@
    &&& c.course@ == parts[0]
    &&& c.duration@ == parts[parts.len() - 1]
    &&& c.name@ == join_space(parts.subrange(1, parts.len() - 1))
    &&& c.link@ == base_url + course_path() + l.course_id@
    &&& classbook_is_placeholder(c.classbook)
}

/// Parses the course listing: each accepted row yields one course, in row
/// order; rows whose title does not fit the expected shape are skipped.
pub fn extract_courses(listings: &Vec<CourseListing>, config: &Config) -> (r: Vec<Course>)
    ensures
        exists|idx: Seq<int>|
            #![trigger idx.len()]
            {
                &&& idx.len() == r@.len()
                &&& (forall|k: int, k2: int| 0 <= k < k2 < idx.len() ==> idx[k] < idx[k2])
                &&& (forall|k: int|
                    0 <= k < idx.len() ==> 0 <= idx[k] < listings@.len() && listing_accepted(
                        listings@[idx[k]],
                    ) && course_matches_listing(
                        r@[k],
                        listings@[idx[k]],
                        config.spec_global().website.base_url@,
                    ))
                &&& (forall|i: int|
                    0 <= i < listings@.len() && listing_accepted(listings@[i]) ==> idx.contains(i))
            },
{
    let ghost base = config.spec_global().website.base_url@;
    let mut courses: Vec<Course> = Vec::new();
    let ghost mut idx: Seq<int> = Seq::<int>::empty();
    let mut i: usize = 0;
    let n = listings.len();
    while i < n
        invariant
            i <= n,
            n == listings@.len(),
            base == config.spec_global().website.base_url@,
            idx.len() == courses@.len(),
            forall|k: int, k2: int| 0 <= k < k2 < idx.len() ==> idx[k] < idx[k2],
            forall|k: int| #![trigger idx[k]] 0 <= k < idx.len() ==> 0 <= idx[k] < i,
            forall|k: int|
                #![trigger idx[k]]
                0 <= k < idx.len() ==> listing_accepted(listings@[idx[k]])
                    && course_matches_listing(courses@[k], listings@[idx[k]], base),
            forall|j: int| 0 <= j < i && listing_accepted(listings@[j]) ==> idx.contains(j),
        decreases n - i,
    {
        let listing = &listings[i];
        let namev = chars_vec(listing.course_name.as_str());
        let parts = split_ws_vec(&namev);
        let mut lf: Vec<char> = Vec::new();
        lf.push('L');
        lf.push('F');
        assert(lf@ =~= seq!['L', 'F']);
        let plen = parts.len();
        if plen >= 2 && crate::chars::has_at(&parts[0], 0, &lf) {
            assert(listing_accepted(listings@[i as int]));
            let course = subrange_vec(&parts[0], 0, parts[0].len());
            assert(course@ =~= split_ws_spec(listing.course_name@)[0]);
            let duration = subrange_vec(&parts[plen - 1], 0, parts[plen - 1].len());
            assert(duration@ =~= split_ws_spec(listing.course_name@)[plen - 1]);
            let name = crate::chars::join_space_range(&parts, 1, plen - 1);
            proof {
                assert(views_of(parts@).subrange(1, plen - 1) =~= split_ws_spec(
                    listing.course_name@,
                ).subrange(1, plen - 1));
            }
            let link = generate_course_link(config, listing.course_id.as_str());
            let id = {
                let idv = chars_vec(listing.course_id.as_str());
                string_from_chars(&idv)
            };
            let c = Course {
                id,
                name: string_from_chars(&name),
                link,
                course: string_from_chars(&course),
                duration: string_from_chars(&duration),
                classbook: Classbook::placeholder(),
            };
            proof {
                assert(c.course@ == split_ws_spec(listings@[i as int].course_name@)[0]);
                assert(c.duration@ == split_ws_spec(listings@[i as int].course_name@)[plen - 1]);
                assert(c.name@ == join_space(
                    split_ws_spec(listings@[i as int].course_name@).subrange(1, plen - 1),
                ));
                assert(course_matches_listing(c, listings@[i as int], base));
            }
            let ghost courses0 = courses@;
            courses.push(c);
            proof {
                assert(courses@ =~= courses0.push(c));
                let idx0 = idx;
                idx = idx.push(i as int);
                assert(idx[idx.len() - 1] == i as int);
                assert forall|j: int|
                    0 <= j < i + 1 && listing_accepted(listings@[j]) implies idx.contains(j) by {
                    if j == i as int {
                        assert(idx[idx.len() - 1] == j);
                    } else {
                        assert(idx0.contains(j));
                        let k = choose|k: int| 0 <= k < idx0.len() && idx0[k] == j;
                        assert(idx[k] == j);
                    }
                }
                assert forall|k: int|
                    0 <= k < idx.len() implies listing_accepted(listings@[idx[k]])
                        && course_matches_listing(courses@[k], listings@[idx[k]], base) by {
                    if k < idx.len() - 1 {
                        assert(idx[k] == idx0[k]);
                        assert(courses@[k] == courses0[k]);
                    } else {
                        assert(idx[k] == i as int);
                        assert(courses@[k] == c);
                    }
                }
            }
        } else {
            assert(!listing_accepted(listings@[i as int]));
            proof {
                assert forall|j: int|
                    0 <= j < i + 1 && listing_accepted(listings@[j]) implies idx.contains(j) by {
                    if j < i {
                        assert(idx.contains(j));
                    }
                }
            }
        }
        i = i + 1;
    }
    proof {
        assert({
            &&& idx.len() == courses@.len()
            &&& (forall|k: int, k2: int| 0 <= k < k2 < idx.len() ==> idx[k] < idx[k2])
            &&& (forall|k: int|
                0 <= k < idx.len() ==> 0 <= idx[k] < listings@.len() && listing_accepted(
                    listings@[idx[k]],
                ) && course_matches_listing(
                    courses@[k],
                    listings@[idx[k]],
                    config.spec_global().website.base_url@,
                ))
            &&& (forall|i2: int|
                0 <= i2 < listings@.len() && listing_accepted(listings@[i2]) ==> idx.contains(i2))
        });
        assert(idx.len() == courses@.len());
    }
    courses
}

/// Restricts a run to its first course when test mode is on.
pub fn select_courses(courses: Vec<Course>, test_mode: bool) -> (r: Vec<Course>)
    ensures
        test_mode && courses@.len() > 1 ==> r@ == courses@.take(1),
        !(test_mode && courses@.len() > 1) ==> r@ == courses@,
{
    let mut courses = courses;
    let ghost before = courses@;
    if test_mode && courses.len() > 1 {
        courses.truncate(1);
        assert(courses@ =~= before.take(1));
    }
    courses
}

} // verus!
