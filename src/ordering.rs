//! What holds of every order that the scheduler builds.

use vstd::prelude::*;
use vstd::set_lib::{lemma_int_range, lemma_len_subset, set_int_range};
use crate::jobs::JobView;
use crate::schedule::{deps_met, initial, names_of, scan, schedule, settle, unscheduled};

verus! {

/// No two jobs share a name.
pub open spec fn unique_names(js: Seq<JobView>) -> bool {
    forall|i: int, j: int|
        0 <= i < js.len() && 0 <= j < js.len() && i != j ==> #[trigger] js[i].name != #[trigger] js[j].name
}

/// Every dependency names one of the jobs.
pub open spec fn deps_known(js: Seq<JobView>) -> bool {
    forall|i: int, d: int|
        0 <= i < js.len() && 0 <= d < js[i].depends.len() ==> exists|j: int|
            0 <= j < js.len() && js[j].name == #[trigger] js[i].depends[d]
}

/// `rank` falls along every dependency.
pub open spec fn ranked(js: Seq<JobView>, rank: spec_fn(int) -> nat) -> bool {
    forall|i: int, d: int, j: int|
        0 <= i < js.len() && 0 <= d < js[i].depends.len() && 0 <= j < js.len() && js[j].name
            == #[trigger] js[i].depends[d] ==> #[trigger] rank(j) < rank(i)
}

/// The dependency graph has no cycle: some rank falls along every dependency.
pub open spec fn acyclic(js: Seq<JobView>) -> bool {
    exists|rank: spec_fn(int) -> nat| ranked(js, rank)
}

/// The position after `t` on a cycle of length `n`.
pub open spec fn cycle_next(t: int, n: int) -> int {
    if t + 1 < n {
        t + 1
    } else {
        0
    }
}

/// The jobs at the positions `c` form a cycle: each depends on the next, the
/// last on the first.
pub open spec fn is_cycle(js: Seq<JobView>, c: Seq<int>) -> bool {
    &&& c.len() >= 1
    &&& forall|t: int| 0 <= t < c.len() ==> 0 <= #[trigger] c[t] < js.len()
    &&& forall|t: int|
        0 <= t < c.len() ==> js[#[trigger] c[t]].depends.contains(js[c[cycle_next(t, c.len() as int)]].name)
}

/// The positions in `order` are distinct jobs, and each job follows all of
/// its dependencies.
pub open spec fn valid_order(js: Seq<JobView>, order: Seq<int>) -> bool {
    &&& forall|k: int| 0 <= k < order.len() ==> 0 <= #[trigger] order[k] < js.len()
    &&& order.no_duplicates()
    &&& forall|k: int, d: int|
        0 <= k < order.len() && 0 <= d < js[order[k]].depends.len() ==> names_of(
            js,
            order.subrange(0, k),
        ).contains(#[trigger] js[order[k]].depends[d])
}

/// A job may be added to `o` in a pass.
pub open spec fn placeable(js: Seq<JobView>, o: Seq<int>, i: int) -> bool {
    !names_of(js, o).contains(js[i].name) && deps_met(js, names_of(js, o), i)
}

proof fn lemma_push_valid(js: Seq<JobView>, o: Seq<int>, i: int)
    requires
        valid_order(js, o),
        0 <= i < js.len(),
        !o.contains(i),
        deps_met(js, names_of(js, o), i),
    ensures
        valid_order(js, o.push(i)),
{
    let p = o.push(i);
    assert forall|k: int, d: int|
        0 <= k < p.len() && 0 <= d < js[p[k]].depends.len() implies names_of(js, p.subrange(0, k)).contains(
        #[trigger] js[p[k]].depends[d],
    ) by {
        if k < o.len() {
            assert(p.subrange(0, k) =~= o.subrange(0, k));
        } else {
            assert(p.subrange(0, k) =~= o);
        }
    }
}

proof fn lemma_initial_valid(js: Seq<JobView>, m: int)
    requires
        0 <= m <= js.len(),
    ensures
        valid_order(js, initial(js, m)),
        forall|k: int| 0 <= k < initial(js, m).len() ==> #[trigger] initial(js, m)[k] < m,
    decreases m,
{
    if m > 0 {
        lemma_initial_valid(js, m - 1);
        let o = initial(js, m - 1);
        if js[m - 1].depends.len() == 0 {
            assert(!o.contains(m - 1));
            lemma_push_valid(js, o, m - 1);
        }
    }
}

proof fn lemma_scan_valid(js: Seq<JobView>, start: Seq<int>, m: int)
    requires
        valid_order(js, start),
        0 <= m <= js.len(),
    ensures
        valid_order(js, scan(js, start, m)),
        scan(js, start, m).len() >= start.len(),
        scan(js, start, m).len() == start.len() ==> scan(js, start, m) == start && forall|i: int|
            0 <= i < m ==> !#[trigger] placeable(js, start, i),
    decreases m,
{
    if m > 0 {
        lemma_scan_valid(js, start, m - 1);
        let o = scan(js, start, m - 1);
        if placeable(js, o, m - 1) {
            if o.contains(m - 1) {
                let k = choose|k: int| 0 <= k < o.len() && o[k] == m - 1;
                assert(names_of(js, o)[k] == js[m - 1].name);
            }
            lemma_push_valid(js, o, m - 1);
        }
    }
}

proof fn lemma_settle_valid(js: Seq<JobView>, order: Seq<int>)
    requires
        valid_order(js, order),
    ensures
        valid_order(js, settle(js, order).1),
        settle(js, order).0 ==> settle(js, order).1.len() >= js.len(),
    decreases js.len() - order.len(),
{
    if order.len() < js.len() {
        let next = scan(js, order, js.len() as int);
        lemma_scan_valid(js, order, js.len() as int);
        if next.len() > order.len() && next.len() < js.len() {
            lemma_settle_valid(js, next);
        }
    }
}

/// A valid order holds at most every job once, and holds every job when it is that long.
proof fn lemma_order_len(js: Seq<JobView>, order: Seq<int>)
    requires
        valid_order(js, order),
    ensures
        order.len() <= js.len(),
        order.len() >= js.len() ==> forall|i: int| 0 <= i < js.len() ==> order.contains(i),
        (forall|i: int| 0 <= i < js.len() ==> order.contains(i)) ==> order.len() >= js.len(),
{
    let n = js.len() as int;
    order.unique_seq_to_set();
    lemma_int_range(0, n);
    let s = order.to_set();
    assert(s.subset_of(set_int_range(0, n)));
    lemma_len_subset(s, set_int_range(0, n));
    if order.len() >= n {
        assert forall|i: int| 0 <= i < n implies order.contains(i) by {
            if !order.contains(i) {
                assert(s.subset_of(set_int_range(0, n).remove(i)));
                lemma_len_subset(s, set_int_range(0, n).remove(i));
            }
        }
    }
    if forall|i: int| 0 <= i < n ==> order.contains(i) {
        assert(set_int_range(0, n).subset_of(s));
        lemma_len_subset(set_int_range(0, n), s);
    }
}

/// Whatever the jobs, the order that scheduling reaches holds distinct jobs,
/// each after every job it depends on; where scheduling succeeds, it holds
/// every job exactly once.
pub proof fn lemma_valid_schedule(js: Seq<JobView>)
    ensures
        valid_order(js, schedule(js).1),
        schedule(js).0 ==> schedule(js).1.len() == js.len() && forall|i: int|
            0 <= i < js.len() ==> schedule(js).1.contains(i),
{
    lemma_initial_valid(js, js.len() as int);
    lemma_settle_valid(js, initial(js, js.len() as int));
    lemma_order_len(js, schedule(js).1);
}

proof fn lemma_some_placeable(
    js: Seq<JobView>,
    order: Seq<int>,
    rank: spec_fn(int) -> nat,
    i: int,
)
    requires
        valid_order(js, order),
        unique_names(js),
        deps_known(js),
        ranked(js, rank),
        0 <= i < js.len(),
        !order.contains(i),
    ensures
        exists|j: int| 0 <= j < js.len() && !order.contains(j) && #[trigger] placeable(js, order, j),
    decreases rank(i),
{
    let names = names_of(js, order);
    if !placeable(js, order, i) {
        if names.contains(js[i].name) {
            let k = choose|k: int| 0 <= k < names.len() && names[k] == js[i].name;
            assert(js[order[k]].name == js[i].name);
            assert(order[k] == i);
        } else {
            let d = choose|d: int|
                0 <= d < js[i].depends.len() && !names.contains(#[trigger] js[i].depends[d]);
            let j = choose|j: int| 0 <= j < js.len() && js[j].name == #[trigger] js[i].depends[d];
            assert(rank(j) < rank(i));
            if order.contains(j) {
                let k = choose|k: int| 0 <= k < order.len() && order[k] == j;
                assert(names[k] == js[j].name);
            }
            lemma_some_placeable(js, order, rank, j);
        }
    }
}

proof fn lemma_acyclic_settles(js: Seq<JobView>, order: Seq<int>, rank: spec_fn(int) -> nat)
    requires
        valid_order(js, order),
        unique_names(js),
        deps_known(js),
        ranked(js, rank),
    ensures
        settle(js, order).0,
    decreases js.len() - order.len(),
{
    if order.len() < js.len() {
        let next = scan(js, order, js.len() as int);
        lemma_scan_valid(js, order, js.len() as int);
        if next.len() <= order.len() {
            lemma_order_len(js, order);
            let i = choose|i: int| 0 <= i < js.len() && !order.contains(i);
            lemma_some_placeable(js, order, rank, i);
            let j = choose|j: int| 0 <= j < js.len() && !order.contains(j) && #[trigger] placeable(js, order, j);
            assert(!placeable(js, order, j));
        } else if next.len() < js.len() {
            lemma_acyclic_settles(js, next, rank);
        }
    }
}

/// Where the jobs have distinct names, every dependency names a job and the
/// dependencies form no cycle, scheduling succeeds; the order holds each job
/// exactly once, and each job comes after every job it depends on. The order
/// is a function of the jobs in their input order alone.
pub proof fn lemma_schedule_orders_dependencies(js: Seq<JobView>)
    requires
        unique_names(js),
        deps_known(js),
        acyclic(js),
    ensures
        schedule(js).0,
        schedule(js).1.len() == js.len(),
        schedule(js).1.no_duplicates(),
        forall|i: int| 0 <= i < js.len() ==> schedule(js).1.contains(i),
        forall|k: int, d: int|
            0 <= k < schedule(js).1.len() && 0 <= d < js[schedule(js).1[k]].depends.len() ==> names_of(
                js,
                schedule(js).1.subrange(0, k),
            ).contains(#[trigger] js[schedule(js).1[k]].depends[d]),
{
    let rank = choose|rank: spec_fn(int) -> nat| ranked(js, rank);
    lemma_initial_valid(js, js.len() as int);
    lemma_acyclic_settles(js, initial(js, js.len() as int), rank);
    lemma_valid_schedule(js);
}

proof fn lemma_listed(js: Seq<JobView>, names: Seq<Seq<char>>, n: int, i: int)
    requires
        0 <= i < n <= js.len(),
        !names.contains(js[i].name),
    ensures
        unscheduled(js, names, n).contains(js[i].name),
    decreases n,
{
    if i < n - 1 {
        lemma_listed(js, names, n - 1, i);
        let u = unscheduled(js, names, n - 1);
        let k = choose|k: int| 0 <= k < u.len() && u[k] == js[i].name;
        if !names.contains(js[n - 1].name) {
            assert(u.push(js[n - 1].name)[k] == js[i].name);
        }
    } else {
        let u = unscheduled(js, names, n - 1);
        assert(u.push(js[n - 1].name)[u.len() as int] == js[i].name);
    }
}

proof fn lemma_cycle_never_placed(js: Seq<JobView>, c: Seq<int>, order: Seq<int>, k: int)
    requires
        valid_order(js, order),
        unique_names(js),
        is_cycle(js, c),
        0 <= k < order.len(),
    ensures
        !c.contains(order[k]),
    decreases k,
{
    if c.contains(order[k]) {
        let t = choose|t: int| 0 <= t < c.len() && c[t] == order[k];
        let nx = c[cycle_next(t, c.len() as int)];
        let deps = js[c[t]].depends;
        assert(deps.contains(js[nx].name));
        let d = choose|d: int| 0 <= d < deps.len() && deps[d] == js[nx].name;
        let names = names_of(js, order.subrange(0, k));
        assert(names.contains(js[order[k]].depends[d]));
        let m = choose|m: int| 0 <= m < names.len() && names[m] == js[nx].name;
        assert(order.subrange(0, k)[m] == order[m]);
        assert(js[order[m]].name == js[nx].name);
        assert(order[m] == nx);
        lemma_cycle_never_placed(js, c, order, m);
        assert(c[cycle_next(t, c.len() as int)] == nx);
    }
}

/// Where the jobs have distinct names and some of them form a cycle,
/// scheduling fails, and the failure names every job on the cycle.
pub proof fn lemma_cycle_fails(js: Seq<JobView>, c: Seq<int>)
    requires
        unique_names(js),
        is_cycle(js, c),
    ensures
        !schedule(js).0,
        forall|t: int|
            0 <= t < c.len() ==> unscheduled(js, names_of(js, schedule(js).1), js.len() as int).contains(
                js[#[trigger] c[t]].name,
            ),
{
    let o = schedule(js).1;
    lemma_valid_schedule(js);
    if schedule(js).0 {
        assert(o.contains(c[0]));
        let k = choose|k: int| 0 <= k < o.len() && o[k] == c[0];
        lemma_cycle_never_placed(js, c, o, k);
    }
    assert forall|t: int| 0 <= t < c.len() implies unscheduled(
        js,
        names_of(js, o),
        js.len() as int,
    ).contains(js[#[trigger] c[t]].name) by {
        if names_of(js, o).contains(js[c[t]].name) {
            let k = choose|k: int| 0 <= k < o.len() && names_of(js, o)[k] == js[c[t]].name;
            assert(o[k] == c[t]);
            lemma_cycle_never_placed(js, c, o, k);
        }
        lemma_listed(js, names_of(js, o), js.len() as int, c[t]);
    }
}

/// Where a job depends on a name that no job has, scheduling fails; where
/// the jobs have distinct names, the failure names that job.
pub proof fn lemma_unknown_dependency_fails(js: Seq<JobView>, i: int, d: int)
    requires
        0 <= i < js.len(),
        0 <= d < js[i].depends.len(),
        forall|j: int| 0 <= j < js.len() ==> js[j].name != js[i].depends[d],
    ensures
        !schedule(js).0,
        unique_names(js) ==> unscheduled(js, names_of(js, schedule(js).1), js.len() as int).contains(
            js[i].name,
        ),
{
    let o = schedule(js).1;
    lemma_valid_schedule(js);
    if o.contains(i) {
        let k = choose|k: int| 0 <= k < o.len() && o[k] == i;
        let names = names_of(js, o.subrange(0, k));
        assert(names.contains(js[o[k]].depends[d]));
        let m = choose|m: int| 0 <= m < names.len() && names[m] == js[i].depends[d];
        assert(js[o.subrange(0, k)[m]].name == js[i].depends[d]);
    }
    if unique_names(js) {
        if names_of(js, o).contains(js[i].name) {
            let k = choose|k: int| 0 <= k < o.len() && names_of(js, o)[k] == js[i].name;
            assert(o[k] == i);
        }
        lemma_listed(js, names_of(js, o), js.len() as int, i);
    }
}

} // verus!
