//! Collection of concurrently fetched results.
//!
//! The network work itself happens outside the library; each task hands
//! back either the entries it extracted or a failure.  The library states
//! what the batch yields: the concatenation, in completion order, of the
//! entries of the successful tasks — one failed task never fails the
//! batch.
use vstd::prelude::*;

use crate::course::Classbook;
use crate::entry::ClassbookEntry;

verus! {

/// The failure of one fetch-then-extract task: the transport failed or
/// answered with an error status, or the fetched page was missing the
/// expected structure.
#[derive(Clone, Copy, Debug, PartialEq, Eq, Structural)]
pub enum FetchError {
    Transport,
    Structure,
}

/// The entries that one task's result contributes: its payload when it
/// succeeded, nothing when it failed.
pub open spec fn result_entries(r: Result<Vec<ClassbookEntry>, FetchError>) -> Seq<
    ClassbookEntry,
> {
    match r {
        Ok(es) => es@,
        Err(_) => Seq::<ClassbookEntry>::empty(),
    }
}

/// The concatenation of the payloads of the successful results, in order.
pub open spec fn successes(rs: Seq<Result<Vec<ClassbookEntry>, FetchError>>) -> Seq<ClassbookEntry>
    decreases rs.len(),
{
    if rs.len() == 0 {
        Seq::<ClassbookEntry>::empty()
    } else {
        result_entries(rs[0]) + successes(rs.skip(1))
    }
}

/// Collects the entries of a batch of per-link results: the concatenation,
/// in completion order, of the entries of the successful tasks.  A failed
/// task contributes nothing and never fails the batch.
pub fn collect_successful(results: Vec<Result<Vec<ClassbookEntry>, FetchError>>) -> (r: Vec<
    ClassbookEntry,
>)
    ensures
        r@ == successes(results@),
{
    let ghost all = results@;
    let mut results = results;
    let mut out: Vec<ClassbookEntry> = Vec::new();
    assert(all.skip(0) =~= all);
    assert(out@ + successes(all) =~= successes(all));
    let mut i: usize = 0;
    let n = results.len();
    while i < n
        invariant
            i <= n,
            n == all.len(),
            results@ == all.skip(i as int),
            successes(all) == out@ + successes(all.skip(i as int)),
        decreases n - i,
    {
        let ghost out0 = out@;
        let ghost s = all.skip(i as int);
        let taken = results.remove(0);
        proof {
            assert(s[0] == all[i as int]);
            assert(taken == s[0]);
        }
        match taken {
            Ok(mut es) => {
                let ghost esv = es@;
                let m = es.len();
                let mut k: usize = 0;
                while es.len() > 0
                    invariant
                        k <= m,
                        m == esv.len(),
                        es@ == esv.skip(k as int),
                        out@ == out0 + esv.take(k as int),
                    decreases esv.len() - k,
                {
                    let e = es.remove(0);
                    proof {
                        assert(esv.skip(k as int)[0] == esv[k as int]);
                    }
                    out.push(e);
                    proof {
                        assert(esv.take(k + 1 as int) =~= esv.take(k as int).push(esv[k as int]));
                        assert(out@ =~= out0 + esv.take(k + 1 as int));
                        assert(esv.skip(k as int).skip(1) =~= esv.skip(k + 1 as int));
                    }
                    k = k + 1;
                }
                proof {
                    assert(esv.skip(k as int).len() == 0);
                    assert(k == esv.len());
                    assert(esv.take(k as int) =~= esv);
                    assert(out@ == out0 + result_entries(s[0]));
                }
            },
            Err(_) => {
                assert(out@ =~= out0 + result_entries(s[0]));
            },
        }
        i = i + 1;
        proof {
            assert(s.skip(1) =~= all.skip(i as int));
            assert(successes(s) == result_entries(s[0]) + successes(all.skip(i as int)));
            assert((out0 + result_entries(s[0])) + successes(all.skip(i as int)) =~= out0 + (
            result_entries(s[0]) + successes(all.skip(i as int))));
        }
    }
    assert(all.skip(n as int) =~= Seq::<Result<Vec<ClassbookEntry>, FetchError>>::empty());
    assert(out@ + Seq::<ClassbookEntry>::empty() =~= out@);
    out
}

/// The first successful result of a batch, if any.
pub open spec fn first_ok(rs: Seq<Result<Classbook, FetchError>>) -> Option<Classbook>
    decreases rs.len(),
{
    if rs.len() == 0 {
        None
    } else {
        match rs[0] {
            Ok(c) => Some(c),
            Err(_) => first_ok(rs.skip(1)),
        }
    }
}

/// Picks the first successful classbook of a batch of per-link results:
/// the resolution of a course keeps one classbook and drops the failures
/// before it.
pub fn first_successful(results: Vec<Result<Classbook, FetchError>>) -> (r: Option<Classbook>)
    ensures
        r == first_ok(results@),
{
    let ghost all = results@;
    let mut results = results;
    let mut found: Option<Classbook> = None;
    let mut i: usize = 0;
    let n = results.len();
    assert(all.skip(0) =~= all);
    while i < n && found.is_none()
        invariant
            i <= n,
            n == all.len(),
            results@ == all.skip(i as int),
            found is None ==> first_ok(all) == first_ok(all.skip(i as int)),
            found matches Some(c) ==> first_ok(all) == Some(c),
        decreases n - i,
    {
        let ghost s = all.skip(i as int);
        let taken = results.remove(0);
        proof {
            assert(s[0] == all[i as int]);
            assert(taken == s[0]);
            assert(s.skip(1) =~= all.skip(i + 1));
        }
        match taken {
            Ok(c) => {
                proof {
                    assert(first_ok(s) == Some(c));
                }
                found = Some(c);
            },
            Err(_) => {
                assert(first_ok(s) == first_ok(all.skip(i + 1)));
            },
        }
        i = i + 1;
    }
    if found.is_none() {
        proof {
            assert(all.skip(n as int).len() == 0);
            assert(first_ok(all.skip(n as int)) is None);
        }
    }
    found
}

} // verus!
