//! Discovery of CPU cores not monopolized by any single-core-pinned process.
//!
//! The scan itself (reading the kernel's per-process status export) is I/O and
//! lives outside this library; the library holds the verified logic: the
//! classifier that decides whether one process occupies one core, and the
//! complementer that turns the occupied set into the free set.

pub mod status;

use std::collections::HashSet;
use vstd::prelude::*;

use crate::status::classify_spec;
use crate::status::classify_status;

verus! {

broadcast use vstd::std_specs::hash::group_hash_axioms;

/// What one enumerated candidate contributes to the occupied set: nothing
/// when its status export could not be read at all, else what the
/// classifier makes of its lines.
pub open spec fn contribution(status: Option<Seq<Seq<u8>>>) -> Option<usize> {
    match status {
        Some(lines) => classify_spec(lines),
        None => None,
    }
}

/// The set of cores occupied by at least one single-core-pinned user
/// process among the scanned candidates.
pub open spec fn occupied_set(statuses: Seq<Option<Seq<Seq<u8>>>>) -> Set<usize> {
    Set::new(
        |c: usize| exists|i: int| 0 <= i < statuses.len() && contribution(#[trigger] statuses[i]) == Some(c),
    )
}

/// The free cores: every core in `[0, total)` that no scanned candidate
/// occupies.
pub open spec fn free_set(total: usize, statuses: Seq<Option<Seq<Seq<u8>>>>) -> Set<usize> {
    Set::new(|c: usize| c < total && !occupied_set(statuses).contains(c))
}

/// Accumulates the occupied cores over all scanned candidates. Each
/// candidate is the lines of one status export, or nothing where the export
/// could not be read; two processes pinned to the same core collapse to one
/// entry of the set.
pub fn occupied_cores(statuses: &Vec<Option<Vec<Vec<u8>>>>) -> (r: HashSet<usize>)
    ensures
        r@ == occupied_set(statuses.deep_view()),
{
    let ghost dv = statuses.deep_view();
    let mut r: HashSet<usize> = HashSet::new();
    let mut i: usize = 0;
    proof {
        assert(r@ =~= occupied_set(dv.take(0)));
    }
    while i < statuses.len()
        invariant
            0 <= i <= statuses.len(),
            dv == statuses.deep_view(),
            dv.len() == statuses@.len(),
            forall|j: int| 0 <= j < dv.len() ==> #[trigger] dv[j] == statuses@[j].deep_view(),
            r@ == occupied_set(dv.take(i as int)),
        decreases statuses.len() - i,
    {
        let ghost k = i as int;
        let c = match &statuses[i] {
            Some(lines) => classify_status(lines),
            None => None,
        };
        proof {
            assert(c == contribution(dv[k]));
            assert(dv.take(k + 1).drop_last() =~= dv.take(k));
        }
        match c {
            Some(core) => {
                r.insert(core);
                proof {
                    assert forall|x: usize|
                        occupied_set(dv.take(k + 1)).contains(x) <==> occupied_set(
                            dv.take(k),
                        ).insert(core).contains(x) by {
                        if occupied_set(dv.take(k + 1)).contains(x) {
                            let w = choose|w: int|
                                0 <= w < k + 1 && contribution(#[trigger] dv.take(k + 1)[w])
                                    == Some(x);
                            if w < k {
                                assert(contribution(dv.take(k)[w]) == Some(x));
                            }
                        }
                        if occupied_set(dv.take(k)).insert(core).contains(x) {
                            if x == core {
                                assert(contribution(dv.take(k + 1)[k]) == Some(x));
                            } else {
                                let w = choose|w: int|
                                    0 <= w < k && contribution(#[trigger] dv.take(k)[w]) == Some(
                                        x,
                                    );
                                assert(contribution(dv.take(k + 1)[w]) == Some(x));
                            }
                        }
                    }
                    assert(r@ =~= occupied_set(dv.take(k + 1)));
                }
            },
            None => {
                proof {
                    assert forall|x: usize|
                        occupied_set(dv.take(k + 1)).contains(x) <==> occupied_set(
                            dv.take(k),
                        ).contains(x) by {
                        if occupied_set(dv.take(k + 1)).contains(x) {
                            let w = choose|w: int|
                                0 <= w < k + 1 && contribution(#[trigger] dv.take(k + 1)[w])
                                    == Some(x);
                            assert(w != k);
                            assert(contribution(dv.take(k)[w]) == Some(x));
                        }
                        if occupied_set(dv.take(k)).contains(x) {
                            let w = choose|w: int|
                                0 <= w < k && contribution(#[trigger] dv.take(k)[w]) == Some(x);
                            assert(contribution(dv.take(k + 1)[w]) == Some(x));
                        }
                    }
                    assert(r@ =~= occupied_set(dv.take(k + 1)));
                }
            },
        }
        i += 1;
    }
    proof {
        assert(dv.take(dv.len() as int) =~= dv);
    }
    r
}

/// The free-core query on a scanned snapshot: given the advertised core
/// count and the candidates' status exports, returns exactly the cores in
/// `[0, total_cores)` that no single-core-pinned user process occupies.
pub fn get(total_cores: usize, statuses: &Vec<Option<Vec<Vec<u8>>>>) -> (r: HashSet<usize>)
    ensures
        r@ == free_set(total_cores, statuses.deep_view()),
{
    let occupied = occupied_cores(statuses);
    let ghost dv = statuses.deep_view();
    let mut free: HashSet<usize> = HashSet::new();
    let mut c: usize = 0;
    proof {
        assert(free@ =~= Set::new(|x: usize| x < 0 && !occupied_set(dv).contains(x)));
    }
    while c < total_cores
        invariant
            0 <= c <= total_cores,
            dv == statuses.deep_view(),
            occupied@ == occupied_set(dv),
            free@ == Set::new(|x: usize| x < c && !occupied_set(dv).contains(x)),
        decreases total_cores - c,
    {
        if !occupied.contains(&c) {
            free.insert(c);
            proof {
                assert(free@ =~= Set::new(
                    |x: usize| x < c + 1 && !occupied_set(dv).contains(x),
                ));
            }
        } else {
            proof {
                assert(free@ =~= Set::new(
                    |x: usize| x < c + 1 && !occupied_set(dv).contains(x),
                ));
            }
        }
        c += 1;
    }
    proof {
        assert(free@ =~= free_set(total_cores, dv));
    }
    free
}

/// The full query: asks the operating system for its core count and returns
/// it together with the free cores of the scanned snapshot. The count is
/// always at least 1, and the set is exactly the free set for that count.
pub fn free_cores(statuses: &Vec<Option<Vec<Vec<u8>>>>) -> (r: (usize, HashSet<usize>))
    ensures
        1 <= r.0,
        r.1@ == free_set(r.0, statuses.deep_view()),
{
    let n = core_count();
    let free = get(n, statuses);
    (n, free)
}

/// Every free core is a real core: the returned set lies within
/// `[0, total)`.
pub proof fn lemma_free_set_in_range(total: usize, statuses: Seq<Option<Seq<Seq<u8>>>>)
    ensures
        forall|c: usize| #[trigger] free_set(total, statuses).contains(c) ==> c < total,
{
}

/// The free set is exactly the complement, within `[0, total)`, of the
/// occupied set the classifier produced.
pub proof fn lemma_free_set_is_complement(total: usize, statuses: Seq<Option<Seq<Seq<u8>>>>)
    ensures
        free_set(total, statuses) == Set::new(|c: usize| c < total).difference(
            occupied_set(statuses),
        ),
{
    assert(free_set(total, statuses) =~= Set::new(|c: usize| c < total).difference(
        occupied_set(statuses),
    ));
}

/// On an unchanged snapshot the query is deterministic: two results that
/// meet the query's contract on equal inputs are equal sets, so two
/// back-to-back calls on a quiescent host agree.
pub proof fn lemma_idempotent(
    total: usize,
    statuses: Seq<Option<Seq<Seq<u8>>>>,
    r1: Set<usize>,
    r2: Set<usize>,
)
    requires
        r1 == free_set(total, statuses),
        r2 == free_set(total, statuses),
    ensures
        r1 == r2,
{
}

/// Noise among the candidates changes nothing: injecting, at any position,
/// an entry that contributes no core — an unreadable status among them —
/// leaves the free set as it was.
pub proof fn lemma_noise_entry_ignored(
    total: usize,
    statuses: Seq<Option<Seq<Seq<u8>>>>,
    p: int,
    e: Option<Seq<Seq<u8>>>,
)
    requires
        0 <= p <= statuses.len(),
        contribution(e) is None,
    ensures
        free_set(total, statuses.insert(p, e)) == free_set(total, statuses),
{
    let grown = statuses.insert(p, e);
    statuses.insert_ensures(p, e);
    assert forall|x: usize| occupied_set(grown).contains(x) <==> occupied_set(
        statuses,
    ).contains(x) by {
        if occupied_set(grown).contains(x) {
            let w = choose|w: int|
                0 <= w < grown.len() && contribution(#[trigger] grown[w]) == Some(x);
            if w < p {
                assert(contribution(statuses[w]) == Some(x));
            } else {
                assert(w != p);
                assert(grown[w] == statuses[w - 1]);
                assert(contribution(statuses[w - 1]) == Some(x));
            }
        }
        if occupied_set(statuses).contains(x) {
            let w = choose|w: int|
                0 <= w < statuses.len() && contribution(#[trigger] statuses[w]) == Some(x);
            if w < p {
                assert(contribution(grown[w]) == Some(x));
            } else {
                assert(contribution(grown[w + 1]) == Some(x));
            }
        }
    }
    assert(occupied_set(grown) =~= occupied_set(statuses));
    assert(free_set(total, grown) =~= free_set(total, statuses));
}

/// The number of logical cores the operating system advertises.
///
/// Relies on num_cpus::get: the number of available logical cores of the
/// current system, documented to always be at least 1.
#[verifier::external_body]
fn core_count() -> (n: usize)
    ensures
        1 <= n,
{
    num_cpus::get()
}

} // verus!
