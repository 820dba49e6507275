//! Ordering the jobs so that each runs after the jobs it depends on.
//!
//! The order is built by repeated passes: first every job without
//! dependencies, in input order; then, pass after pass, each job not yet
//! scheduled whose dependencies are all scheduled, in input order, a job
//! scheduled earlier in the same pass counting at once. Scheduling stops when
//! every job is placed, or fails when a pass places none.

use vstd::prelude::*;
use vstd::string::*;
use crate::config::texts;
use crate::error::Error;
use crate::jobs::{JobView, ReadyJob};
use crate::text::same_text;

verus! {

/// What each job of a list holds.
pub open spec fn views(v: Seq<ReadyJob>) -> Seq<JobView> {
    v.map_values(|j: ReadyJob| j@)
}

/// The names of the jobs at the positions of `order`.
pub open spec fn names_of(jobs: Seq<JobView>, order: Seq<int>) -> Seq<Seq<char>> {
    order.map_values(|k: int| jobs[k].name)
}

/// The jobs at the positions of `order`.
pub open spec fn picked(jobs: Seq<ReadyJob>, order: Seq<int>) -> Seq<JobView> {
    order.map_values(|k: int| jobs[k]@)
}

/// Whether every dependency of job `i` is among `names`.
pub open spec fn deps_met(jobs: Seq<JobView>, names: Seq<Seq<char>>, i: int) -> bool {
    forall|d: int| 0 <= d < jobs[i].depends.len() ==> names.contains(#[trigger] jobs[i].depends[d])
}

/// The first `n` jobs that have no dependencies, by position.
pub open spec fn initial(jobs: Seq<JobView>, n: int) -> Seq<int>
    decreases n,
{
    if n <= 0 {
        Seq::empty()
    } else {
        let o = initial(jobs, n - 1);
        if jobs[n - 1].depends.len() == 0 {
            o.push(n - 1)
        } else {
            o
        }
    }
}

/// The order `start` after one pass over the first `n` jobs.
pub open spec fn scan(jobs: Seq<JobView>, start: Seq<int>, n: int) -> Seq<int>
    decreases n,
{
    if n <= 0 {
        start
    } else {
        let o = scan(jobs, start, n - 1);
        if !names_of(jobs, o).contains(jobs[n - 1].name) && deps_met(jobs, names_of(jobs, o), n - 1) {
            o.push(n - 1)
        } else {
            o
        }
    }
}

/// Passes from `order` until every job is placed (`true`) or a pass places
/// none (`false`), with the order reached.
pub open spec fn settle(jobs: Seq<JobView>, order: Seq<int>) -> (bool, Seq<int>)
    decreases jobs.len() - order.len(),
{
    if order.len() >= jobs.len() {
        (true, order)
    } else {
        let next = scan(jobs, order, jobs.len() as int);
        if next.len() <= order.len() {
            (false, order)
        } else if next.len() >= jobs.len() {
            (true, next)
        } else {
            settle(jobs, next)
        }
    }
}

/// Whether the jobs can be ordered, and the order, by position.
pub open spec fn schedule(jobs: Seq<JobView>) -> (bool, Seq<int>) {
    settle(jobs, initial(jobs, jobs.len() as int))
}

/// The names, in input order, of the first `n` jobs whose name is not among `names`.
pub open spec fn unscheduled(jobs: Seq<JobView>, names: Seq<Seq<char>>, n: int) -> Seq<Seq<char>>
    decreases n,
{
    if n <= 0 {
        Seq::empty()
    } else {
        let u = unscheduled(jobs, names, n - 1);
        if names.contains(jobs[n - 1].name) {
            u
        } else {
            u.push(jobs[n - 1].name)
        }
    }
}

/// Whether `s` is one of the strings of `v`.
fn contains_text(v: &Vec<String>, s: &str) -> (r: bool)
    ensures
        r == texts(v@).contains(s@),
{
    let mut i: usize = 0;
    while i < v.len()
        invariant
            i <= v@.len(),
            forall|j: int| 0 <= j < i ==> v@[j]@ != s@,
        decreases v@.len() - i,
    {
        if same_text(v[i].as_str(), s) {
            assert(texts(v@)[i as int] == s@);
            return true;
        }
        i += 1;
    }
    assert forall|j: int| 0 <= j < texts(v@).len() implies texts(v@)[j] != s@ by {
        assert(v@[j]@ != s@);
    }
    false
}

/// Whether each of `deps` is one of `names`.
fn all_contained(deps: &Vec<String>, names: &Vec<String>) -> (r: bool)
    ensures
        r == forall|d: int| 0 <= d < deps@.len() ==> texts(names@).contains(#[trigger] texts(deps@)[d]),
{
    let mut i: usize = 0;
    while i < deps.len()
        invariant
            i <= deps@.len(),
            forall|d: int| 0 <= d < i ==> texts(names@).contains(#[trigger] texts(deps@)[d]),
        decreases deps@.len() - i,
    {
        if !contains_text(names, deps[i].as_str()) {
            assert(texts(deps@)[i as int] == deps@[i as int]@);
            return false;
        }
        i += 1;
    }
    true
}

/// The failure that names every job whose name is not among `scheduled`.
pub fn cycle_error(scheduled: &Vec<String>, all: &Vec<ReadyJob>) -> (r: Error)
    ensures
        match r {
            Error::Unschedulable(v) => texts(v@) == unscheduled(
                views(all@),
                texts(scheduled@),
                all@.len() as int,
            ),
            _ => false,
        },
{
    let mut v: Vec<String> = Vec::new();
    let mut i: usize = 0;
    while i < all.len()
        invariant
            i <= all@.len(),
            texts(v@) == unscheduled(views(all@), texts(scheduled@), i as int),
        decreases all@.len() - i,
    {
        let name = all[i].name();
        if !contains_text(scheduled, name.as_str()) {
            v.push(name.clone());
            assert(texts(v@) =~= unscheduled(views(all@), texts(scheduled@), i + 1));
        }
        i += 1;
    }
    Error::Unschedulable(v)
}

/// The jobs in an order where each follows its dependencies, as the passes
/// build it; or, where a pass places no job, the failure that names every job
/// left unplaced.
pub fn schedule_specs(jobs: &Vec<ReadyJob>) -> (r: Result<Vec<ReadyJob>, Error>)
    ensures
        schedule(views(jobs@)).0 <==> r is Ok,
        match r {
            Ok(q) => views(q@) == picked(jobs@, schedule(views(jobs@)).1),
            Err(e) => match e {
                Error::Unschedulable(v) => texts(v@) == unscheduled(
                    views(jobs@),
                    names_of(views(jobs@), schedule(views(jobs@)).1),
                    jobs@.len() as int,
                ),
                _ => false,
            },
        },
{
    let ghost js = views(jobs@);
    let required_count = jobs.len();
    let mut scheduled: Vec<ReadyJob> = Vec::new();
    let mut scheduled_names: Vec<String> = Vec::new();
    let ghost mut order: Seq<int> = Seq::empty();

    let mut i: usize = 0;
    while i < required_count
        invariant
            i <= required_count == jobs@.len(),
            js == views(jobs@),
            order == initial(js, i as int),
            views(scheduled@) == picked(jobs@, order),
            scheduled@.len() == order.len(),
            scheduled_names@.len() == order.len(),
            texts(scheduled_names@) == names_of(js, order),
            forall|k: int| 0 <= k < order.len() ==> 0 <= #[trigger] order[k] < jobs@.len(),
        decreases required_count - i,
    {
        let job = &jobs[i];
        if job.depends().len() == 0 {
            let ghost old_views = views(scheduled@);
            let ghost old_names = texts(scheduled_names@);
            scheduled_names.push(job.name().clone());
            scheduled.push(job.duplicate());
            proof {
                let ghost prev = order;
                order = order.push(i as int);
                assert forall|k: int| 0 <= k < order.len() implies views(scheduled@)[k] == picked(jobs@, order)[k] by {
                    if k < prev.len() {
                        assert(views(scheduled@)[k] == old_views[k]);
                    }
                }
                assert(views(scheduled@) =~= picked(jobs@, order));
                assert forall|k: int| 0 <= k < order.len() implies texts(scheduled_names@)[k] == names_of(js, order)[k] by {
                    if k < prev.len() {
                        assert(texts(scheduled_names@)[k] == old_names[k]);
                    }
                }
                assert(texts(scheduled_names@) =~= names_of(js, order));
            }
        }
        i += 1;
    }
    assert(settle(js, order) == schedule(js));

    while scheduled.len() < required_count
        invariant
            required_count == jobs@.len(),
            js == views(jobs@),
            settle(js, order) == schedule(js),
            views(scheduled@) == picked(jobs@, order),
            scheduled@.len() == order.len(),
            scheduled_names@.len() == order.len(),
            texts(scheduled_names@) == names_of(js, order),
            forall|k: int| 0 <= k < order.len() ==> 0 <= #[trigger] order[k] < jobs@.len(),
        decreases if scheduled@.len() <= required_count {
            required_count - scheduled@.len()
        } else {
            0
        },
    {
        let sched_count = scheduled.len();
        let ghost start = order;
        let mut added = false;
        let mut i: usize = 0;
        while i < required_count
            invariant
                i <= required_count == jobs@.len(),
                js == views(jobs@),
                order == scan(js, start, i as int),
                views(scheduled@) == picked(jobs@, order),
                scheduled@.len() == order.len(),
                scheduled_names@.len() == order.len(),
                texts(scheduled_names@) == names_of(js, order),
                forall|k: int| 0 <= k < order.len() ==> 0 <= #[trigger] order[k] < jobs@.len(),
                !added ==> order == start,
                added ==> order.len() > start.len(),
                order.len() >= start.len(),
                sched_count == start.len(),
            decreases required_count - i,
        {
            let job = &jobs[i];
            if !contains_text(&scheduled_names, job.name().as_str()) && all_contained(
                job.depends(),
                &scheduled_names,
            ) {
                let ghost old_views = views(scheduled@);
            let ghost old_names = texts(scheduled_names@);
                scheduled_names.push(job.name().clone());
                scheduled.push(job.duplicate());
                added = true;
                proof {
                    assert(deps_met(js, names_of(js, order), i as int));
                    let ghost prev = order;
                    order = order.push(i as int);
                    assert forall|k: int| 0 <= k < order.len() implies views(scheduled@)[k] == picked(jobs@, order)[k] by {
                        if k < prev.len() {
                            assert(views(scheduled@)[k] == old_views[k]);
                        }
                    }
                    assert(views(scheduled@) =~= picked(jobs@, order));
                    assert forall|k: int| 0 <= k < order.len() implies texts(scheduled_names@)[k] == names_of(js, order)[k] by {
                        if k < prev.len() {
                            assert(texts(scheduled_names@)[k] == old_names[k]);
                        }
                    }
                    assert(texts(scheduled_names@) =~= names_of(js, order));
                }
            } else {
                proof {
                    if !names_of(js, order).contains(js[i as int].name) {
                        assert(!deps_met(js, names_of(js, order), i as int));
                    }
                }
            }
            i += 1;
        }
        assert(order == scan(js, start, js.len() as int));
        if scheduled.len() == sched_count {
            assert(settle(js, start) == (false, start));
            return Err(cycle_error(&scheduled_names, jobs));
        }
        assert(settle(js, order) == settle(js, start));
    }
    assert(settle(js, order) == (true, order));
    Ok(scheduled)
}

} // verus!
