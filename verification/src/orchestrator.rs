use vstd::prelude::*;
use crate::json::{json_as_str, json_from_str, json_get, json_model, json_object_values, json_parse, member_of, JsonModel};
use crate::text::{contains, contains_chars, find, first_occurrence, lines, occurs_at, split_lines, starts_with, starts_with_chars, string_of, to_chars, views};
use crate::types::{diagnostic_views, BuildResult, DetectedProject, DiagnosticView, Language, LintDiagnostic, LintResult, Severity};

verus! {

// ---------------------------------------------------------------------------
// The dependency graph
// ---------------------------------------------------------------------------

/// `dep` is an `n` by `n` table: `dep[i][j]` says whether project `i`
/// depends on project `j` (the diagonal is not looked at).
pub open spec fn is_table(dep: Seq<Seq<bool>>, n: int) -> bool {
    dep.len() == n && forall|i: int| 0 <= i < n ==> (#[trigger] dep[i]).len() == n
}

/// Project `i` depends on a different project `j`.
pub open spec fn depends(dep: Seq<Seq<bool>>, i: int, j: int) -> bool {
    i != j && dep[i][j]
}

/// `order` lists each of `0..n` exactly once.
pub open spec fn is_permutation(order: Seq<usize>, n: int) -> bool {
    &&& order.len() == n
    &&& forall|p: int| 0 <= p < n ==> (#[trigger] order[p]) < n
    &&& forall|p: int, q: int| 0 <= p < q < n ==> order[p] != order[q]
}

/// In `order`, every project comes after all the projects it depends on.
pub open spec fn respects(order: Seq<usize>, dep: Seq<Seq<bool>>) -> bool {
    forall|p: int, q: int|
        0 <= p < order.len() && 0 <= q < order.len() && depends(dep, #[trigger] order[p] as int, #[trigger] order[q] as int)
            ==> q < p
}

/// A circular dependency: a non-empty set of projects (marked in `mask`)
/// each of which depends on some project of the same set.
pub open spec fn is_cycle_set(dep: Seq<Seq<bool>>, n: int, mask: Seq<bool>) -> bool {
    &&& mask.len() == n
    &&& exists|v: int| 0 <= v < n && mask[v]
    &&& forall|v: int| 0 <= v < n && #[trigger] mask[v] ==> exists|j: int| 0 <= j < n && mask[j] && depends(dep, v, j)
}

/// The projects have a circular dependency.
pub open spec fn has_cycle(dep: Seq<Seq<bool>>, n: int) -> bool {
    exists|mask: Seq<bool>| is_cycle_set(dep, n, mask)
}

/// The number of projects among `0..upto` that project `v` depends on and
/// that are not yet marked `done`.
pub open spec fn pending(dep: Seq<Seq<bool>>, v: int, done: Seq<bool>, upto: int) -> nat
    decreases upto,
{
    if upto <= 0 {
        0
    } else {
        pending(dep, v, done, upto - 1) + if depends(dep, v, upto - 1) && !done[upto - 1] {
            1nat
        } else {
            0nat
        }
    }
}

proof fn lemma_pending_zero(dep: Seq<Seq<bool>>, v: int, done: Seq<bool>, upto: int)
    requires
        pending(dep, v, done, upto) == 0,
    ensures
        forall|j: int| 0 <= j < upto && depends(dep, v, j) ==> done[j],
    decreases upto,
{
    if upto > 0 {
        lemma_pending_zero(dep, v, done, upto - 1);
    }
}

proof fn lemma_pending_positive(dep: Seq<Seq<bool>>, v: int, done: Seq<bool>, upto: int)
    requires
        pending(dep, v, done, upto) > 0,
    ensures
        exists|j: int| 0 <= j < upto && depends(dep, v, j) && !done[j],
    decreases upto,
{
    if upto > 0 {
        if !(depends(dep, v, upto - 1) && !done[upto - 1]) {
            lemma_pending_positive(dep, v, done, upto - 1);
        }
    }
}

proof fn lemma_pending_mark(dep: Seq<Seq<bool>>, v: int, done: Seq<bool>, upto: int, x: int)
    requires
        0 <= x < done.len(),
        upto <= done.len(),
        !done[x],
    ensures
        pending(dep, v, done.update(x, true), upto) + (if depends(dep, v, x) && 0 <= x < upto {
            1nat
        } else {
            0nat
        }) == pending(dep, v, done, upto),
    decreases upto,
{
    if upto > 0 {
        lemma_pending_mark(dep, v, done, upto - 1, x);
    }
}

proof fn lemma_pending_bound(dep: Seq<Seq<bool>>, v: int, done: Seq<bool>, upto: int)
    ensures
        pending(dep, v, done, upto) <= if upto < 0 { 0 } else { upto },
    decreases upto,
{
    if upto > 0 {
        lemma_pending_bound(dep, v, done, upto - 1);
    }
}

// ---------------------------------------------------------------------------
// Ordering the build
// ---------------------------------------------------------------------------

proof fn lemma_push_contains(s: Seq<usize>, x: usize)
    ensures
        s.push(x).contains(x),
        forall|y: usize| s.contains(y) ==> s.push(x).contains(y),
        forall|y: usize| s.push(x).contains(y) ==> s.contains(y) || y == x,
{
    assert(s.push(x)[s.len() as int] == x);
    assert forall|y: usize| s.contains(y) implies s.push(x).contains(y) by {
        let p = choose|p: int| 0 <= p < s.len() && s[p] == y;
        assert(s.push(x)[p] == y);
    }
    assert forall|y: usize| s.push(x).contains(y) implies s.contains(y) || y == x by {
        let p = choose|p: int| 0 <= p < s.push(x).len() && s.push(x)[p] == y;
        if p < s.len() {
            assert(s[p] == y);
        }
    }
}

/// The projects that depend on project `j`, in increasing order.
fn dependents_of(dep: &Vec<Vec<bool>>, j: usize) -> (r: Vec<usize>)
    requires
        is_table(dep.deep_view(), dep@.len() as int),
        j < dep@.len(),
    ensures
        forall|t: int| 0 <= t < r@.len() ==> (#[trigger] r@[t]) < dep@.len() && depends(dep.deep_view(), r@[t] as int, j as int),
        forall|i: int| 0 <= i < dep@.len() && depends(dep.deep_view(), i, j as int) ==> r@.contains(i as usize),
        forall|s: int, t: int| 0 <= s < t < r@.len() ==> r@[s] < r@[t],
        r@ == dependents_list(dep.deep_view(), j as int, dep@.len() as int),
{
    let ghost d = dep.deep_view();
    let n = dep.len();
    let mut r: Vec<usize> = Vec::new();
    let mut i: usize = 0;
    while i < n
        invariant
            n == dep@.len(),
            d == dep.deep_view(),
            is_table(d, n as int),
            j < n,
            i <= n,
            r@ == dependents_list(d, j as int, i as int),
            forall|t: int| 0 <= t < r@.len() ==> (#[trigger] r@[t]) < i && depends(d, r@[t] as int, j as int),
            forall|k: int| 0 <= k < i && depends(d, k, j as int) ==> r@.contains(k as usize),
            forall|s: int, t: int| 0 <= s < t < r@.len() ==> r@[s] < r@[t],
        decreases n - i,
    {
        assert(d[i as int] == dep@[i as int].deep_view());
        assert(dep@[i as int].deep_view()[j as int] == dep@[i as int]@[j as int]);
        let ghost prev = r@;
        if i != j && dep[i][j] {
            proof { lemma_push_contains(r@, i); }
            r.push(i);
            assert(r@[r@.len() - 1] == i);
            assert(r@ =~= prev + seq![i]);
        } else {
            assert(r@ =~= prev + Seq::<usize>::empty());
        }
        i = i + 1;
    }
    r
}

/// The number of projects that project `v` depends on.
fn count_dependencies(dep: &Vec<Vec<bool>>, v: usize) -> (r: usize)
    requires
        is_table(dep.deep_view(), dep@.len() as int),
        v < dep@.len(),
    ensures
        r == pending(dep.deep_view(), v as int, Seq::new(dep@.len() as nat, |k: int| false), dep@.len() as int),
{
    let ghost d = dep.deep_view();
    let ghost none = Seq::new(dep@.len() as nat, |k: int| false);
    let n = dep.len();
    let mut c: usize = 0;
    let mut j: usize = 0;
    while j < n
        invariant
            n == dep@.len(),
            d == dep.deep_view(),
            none == Seq::new(dep@.len() as nat, |k: int| false),
            is_table(d, n as int),
            v < n,
            j <= n,
            c == pending(d, v as int, none, j as int),
        decreases n - j,
    {
        proof {
            lemma_pending_bound(d, v as int, none, j as int);
        }
        assert(d[v as int] == dep@[v as int].deep_view());
        assert(dep@[v as int].deep_view()[j as int] == dep@[v as int]@[j as int]);
        if v != j && dep[v][j] {
            c = c + 1;
        }
        j = j + 1;
    }
    c
}

/// The projects among `0..upto` that depend on project `v`, in increasing
/// order.
pub open spec fn dependents_list(dep: Seq<Seq<bool>>, v: int, upto: int) -> Seq<usize>
    decreases upto,
{
    if upto <= 0 {
        seq![]
    } else {
        dependents_list(dep, v, upto - 1) + if depends(dep, upto - 1, v) { seq![(upto - 1) as usize] } else { seq![] }
    }
}

/// The projects of `ws`, in order, that have no dependency left once the
/// projects marked in `done` are built.
pub open spec fn released_of(dep: Seq<Seq<bool>>, n: int, ws: Seq<usize>, done: Seq<bool>) -> Seq<usize>
    decreases ws.len(),
{
    if ws.len() == 0 {
        seq![]
    } else {
        released_of(dep, n, ws.drop_last(), done) + if pending(dep, ws.last() as int, done, n) == 0 {
            seq![ws.last()]
        } else {
            seq![]
        }
    }
}

/// The projects among `0..upto` that depend on nothing, in increasing order.
pub open spec fn initial_stack(dep: Seq<Seq<bool>>, n: int, upto: int) -> Seq<usize>
    decreases upto,
{
    if upto <= 0 {
        seq![]
    } else {
        initial_stack(dep, n, upto - 1) + if pending(dep, upto - 1, Seq::new(n as nat, |x: int| false), n) == 0 {
            seq![(upto - 1) as usize]
        } else {
            seq![]
        }
    }
}

/// The projects taken, at most `fuel` of them, from the stack `stack` when
/// those marked in `done` are built: the top of the stack is taken; taking a
/// project pushes, in increasing order, each project that depends on it and
/// then has nothing left to wait for.
pub open spec fn kahn_steps(dep: Seq<Seq<bool>>, n: int, done: Seq<bool>, stack: Seq<usize>, fuel: nat) -> Seq<usize>
    decreases fuel,
{
    if fuel == 0 || stack.len() == 0 {
        seq![]
    } else {
        let v = stack.last();
        let after = done.update(v as int, true);
        seq![v] + kahn_steps(dep, n, after, stack.drop_last() + released_of(dep, n, dependents_list(dep, v as int, n), after), (fuel - 1) as nat)
    }
}

/// The build order of `n` projects with dependencies `dep`: starting from
/// the projects that depend on nothing (in increasing order, the largest
/// taken first), the most recently released project is taken next (see
/// `kahn_steps`).
pub open spec fn kahn_order(dep: Seq<Seq<bool>>, n: int) -> Seq<usize> {
    kahn_steps(dep, n, Seq::new(n as nat, |x: int| false), initial_stack(dep, n, n), n as nat)
}

/// The invariant of the ordering loop, on the ghost state (`done`, `ordered`)
/// and the work list `queue` and the counters `indeg`.
pub open spec fn kahn_inv(
    d: Seq<Seq<bool>>,
    n: int,
    done: Seq<bool>,
    ordered: Seq<usize>,
    queue: Seq<usize>,
    indeg: Seq<usize>,
) -> bool {
    &&& done.len() == n
    &&& indeg.len() == n
    // `ordered` lists distinct projects, exactly the done ones
    &&& forall|p: int| 0 <= p < ordered.len() ==> (#[trigger] ordered[p]) < n
    &&& forall|p: int, q: int| 0 <= p < q < ordered.len() ==> ordered[p] != ordered[q]
    &&& forall|v: int| 0 <= v < n ==> (#[trigger] done[v] <==> ordered.contains(v as usize))
    // every project comes after what it depends on
    &&& respects(ordered, d)
    &&& forall|p: int, j: int| #![trigger depends(d, ordered[p] as int, j)] 0 <= p < ordered.len() && 0 <= j < n && depends(d, ordered[p] as int, j) ==> done[j]
    // the queue holds distinct, waiting projects whose dependencies are all done
    &&& forall|t: int| 0 <= t < queue.len() ==> (#[trigger] queue[t]) < n && !done[queue[t] as int] && indeg[queue[t] as int] == 0
    &&& forall|s: int, t: int| 0 <= s < t < queue.len() ==> queue[s] != queue[t]
    // the counters count the dependencies not yet done
    &&& forall|v: int| 0 <= v < n && !done[v] ==> (#[trigger] indeg[v]) == pending(d, v, done, n)
    &&& forall|v: int| 0 <= v < n && !done[v] && indeg[v] == 0 ==> queue.contains(v as usize)
}

/// A build order for projects whose dependencies are given by the table
/// `dep`: `Some` order in which every project comes after all the projects it
/// depends on, or `None` when the dependencies are circular.
pub fn build_order_indices(dep: &Vec<Vec<bool>>) -> (r: Option<Vec<usize>>)
    requires
        is_table(dep.deep_view(), dep@.len() as int),
    ensures
        match r {
            Some(order) => order@ == kahn_order(dep.deep_view(), dep@.len() as int) && is_permutation(order@, dep@.len() as int)
                && respects(order@, dep.deep_view()),
            None => has_cycle(dep.deep_view(), dep@.len() as int),
        },
{
    let ghost d = dep.deep_view();
    let n = dep.len();
    let mut graph: Vec<Vec<usize>> = Vec::new();
    let mut indeg: Vec<usize> = Vec::new();
    let mut k: usize = 0;
    while k < n
        invariant
            n == dep@.len(),
            d == dep.deep_view(),
            is_table(d, n as int),
            k <= n,
            graph@.len() == k,
            indeg@.len() == k,
            forall|j: int| 0 <= j < k ==> forall|t: int| 0 <= t < (#[trigger] graph@[j])@.len() ==> (#[trigger] graph@[j]@[t]) < n && depends(d, graph@[j]@[t] as int, j),
            forall|j: int, i: int| #![trigger depends(d, i, j), graph@[j]] 0 <= j < k && 0 <= i < n && depends(d, i, j) ==> graph@[j]@.contains(i as usize),
            forall|j: int| 0 <= j < k ==> forall|s: int, t: int| 0 <= s < t < (#[trigger] graph@[j])@.len() ==> graph@[j]@[s] < graph@[j]@[t],
            forall|v: int| 0 <= v < k ==> #[trigger] indeg@[v] == pending(d, v, Seq::new(n as nat, |x: int| false), n as int),
            forall|j: int| 0 <= j < k ==> (#[trigger] graph@[j])@ == dependents_list(d, j, n as int),
        decreases n - k,
    {
        graph.push(dependents_of(dep, k));
        indeg.push(count_dependencies(dep, k));
        k = k + 1;
    }
    let ghost mut done: Seq<bool> = Seq::new(n as nat, |x: int| false);
    let mut ordered: Vec<usize> = Vec::new();
    // the projects with no dependencies, largest last
    let mut queue: Vec<usize> = Vec::new();
    let mut v: usize = 0;
    while v < n
        invariant
            n == dep@.len(),
            v <= n,
            indeg@.len() == n,
            done == Seq::new(n as nat, |x: int| false),
            forall|w: int| 0 <= w < n ==> #[trigger] indeg@[w] == pending(d, w, Seq::new(n as nat, |x: int| false), n as int),
            queue@ == initial_stack(d, n as int, v as int),
            forall|t: int| 0 <= t < queue@.len() ==> (#[trigger] queue@[t]) < v && indeg@[queue@[t] as int] == 0,
            forall|s: int, t: int| 0 <= s < t < queue@.len() ==> queue@[s] < queue@[t],
            forall|w: int| 0 <= w < v && indeg@[w] == 0 ==> queue@.contains(w as usize),
        decreases n - v,
    {
        let ghost prev = queue@;
        if indeg[v] == 0 {
            proof { lemma_push_contains(queue@, v); }
            queue.push(v);
            assert(queue@[queue@.len() - 1] == v);
            assert(queue@ =~= prev + seq![v]);
        } else {
            assert(queue@ =~= prev + Seq::<usize>::empty());
        }
        v = v + 1;
    }
    assert(kahn_inv(d, n as int, done, ordered@, queue@, indeg@));
    assert(ordered@ + kahn_steps(d, n as int, done, queue@, (n - ordered@.len()) as nat) =~= kahn_order(d, n as int));
    while queue.len() > 0
        invariant
            n == dep@.len(),
            d == dep.deep_view(),
            is_table(d, n as int),
            graph@.len() == n,
            forall|j: int| 0 <= j < n ==> forall|t: int| 0 <= t < (#[trigger] graph@[j])@.len() ==> (#[trigger] graph@[j]@[t]) < n && depends(d, graph@[j]@[t] as int, j),
            forall|j: int, i: int| #![trigger depends(d, i, j), graph@[j]] 0 <= j < n && 0 <= i < n && depends(d, i, j) ==> graph@[j]@.contains(i as usize),
            forall|j: int| 0 <= j < n ==> forall|s: int, t: int| 0 <= s < t < (#[trigger] graph@[j])@.len() ==> graph@[j]@[s] < graph@[j]@[t],
            forall|j: int| 0 <= j < n ==> (#[trigger] graph@[j])@ == dependents_list(d, j, n as int),
            kahn_inv(d, n as int, done, ordered@, queue@, indeg@),
            ordered@ + kahn_steps(d, n as int, done, queue@, (n - ordered@.len()) as nat) == kahn_order(d, n as int),
        decreases n - ordered@.len(),
    {
        let ghost old_queue = queue@;
        let idx = queue.pop().unwrap();
        let ghost before = done;
        let ghost after = before.update(idx as int, true);
        proof {
            assert(old_queue[old_queue.len() - 1] == idx);
            assert(queue@ =~= old_queue.drop_last());
            // a waiting project is not done, so fewer than n are done
            assert(!done[idx as int]);
            assert(!ordered@.contains(idx));
            lemma_distinct_bound(ordered@, n as int, idx);
            assert(pending(d, idx as int, done, n as int) == 0);
            lemma_pending_zero(d, idx as int, done, n as int);
            lemma_push_contains(ordered@, idx);
        }
        let ghost prev = ordered@;
        ordered.push(idx);
        proof {
            assert(ordered@[ordered@.len() - 1] == idx);
            assert forall|w: int| 0 <= w < n implies (#[trigger] after[w] <==> ordered@.contains(w as usize)) by {
                if w == idx as int {
                } else {
                    assert(after[w] == before[w]);
                }
            }
            assert forall|w: int| 0 <= w < n && !after[w] implies #[trigger] indeg@[w] == pending(d, w, after, n as int) + (if graph@[idx as int]@.contains(w as usize) { 1nat } else { 0nat }) by {
                lemma_pending_mark(d, w, before, n as int, idx as int);
                if graph@[idx as int]@.contains(w as usize) {
                    let s = choose|s: int| 0 <= s < graph@[idx as int]@.len() && graph@[idx as int]@[s] == w as usize;
                    assert(depends(d, graph@[idx as int]@[s] as int, idx as int));
                }
                if depends(d, w, idx as int) {
                    assert(graph@[idx as int]@.contains(w as usize));
                }
            }
            assert(graph@[idx as int]@.subrange(0, graph@[idx as int]@.len() as int) =~= graph@[idx as int]@);
            assert forall|w: int| 0 <= w < n && !after[w] && indeg@[w] == 0 implies queue@.contains(w as usize) by {
                assert(!before[w]);
                assert(old_queue.contains(w as usize));
                let s = choose|s: int| 0 <= s < old_queue.len() && old_queue[s] == w as usize;
                assert(s != old_queue.len() - 1);
                assert(queue@[s] == w as usize);
            }
        }
        let dependents = &graph[idx];
        assert(queue@ =~= old_queue.drop_last() + released_of(d, n as int, dependents@.take(0), after));
        let mut t: usize = 0;
        while t < dependents.len()
            invariant
                n == dep@.len(),
                d == dep.deep_view(),
                is_table(d, n as int),
                idx < n,
                !before[idx as int],
                before.len() == n,
                after == before.update(idx as int, true),
                indeg@.len() == n,
                forall|s: int| 0 <= s < dependents@.len() ==> (#[trigger] dependents@[s]) < n && depends(d, dependents@[s] as int, idx as int),
                forall|s: int, u: int| 0 <= s < u < dependents@.len() ==> dependents@[s] < dependents@[u],
                t <= dependents@.len(),
                forall|p: int, j: int| #![trigger depends(d, ordered@[p] as int, j)] 0 <= p < ordered@.len() && 0 <= j < n && depends(d, ordered@[p] as int, j) ==> before[j],
                forall|w: int| 0 <= w < n ==> (#[trigger] after[w] <==> ordered@.contains(w as usize)),
                forall|p: int| 0 <= p < ordered@.len() ==> (#[trigger] ordered@[p]) < n,
                forall|s: int| 0 <= s < queue@.len() ==> (#[trigger] queue@[s]) < n && !after[queue@[s] as int] && indeg@[queue@[s] as int] == 0,
                forall|s: int, u: int| 0 <= s < u < queue@.len() ==> queue@[s] != queue@[u],
                forall|w: int| 0 <= w < n && !after[w] ==> (#[trigger] indeg@[w]) == pending(d, w, after, n as int) + (if dependents@.subrange(t as int, dependents@.len() as int).contains(w as usize) { 1nat } else { 0nat }),
                forall|w: int| 0 <= w < n && !after[w] && indeg@[w] == 0 && !dependents@.subrange(t as int, dependents@.len() as int).contains(w as usize) ==> queue@.contains(w as usize),
                queue@ == old_queue.drop_last() + released_of(d, n as int, dependents@.take(t as int), after),
            decreases dependents.len() - t,
        {
            let w = dependents[t];
            let ghost rest = dependents@.subrange(t as int, dependents@.len() as int);
            let ghost rest2 = dependents@.subrange(t + 1, dependents@.len() as int);
            proof {
                assert(rest[0] == w);
                assert(rest.contains(w));
                assert(!rest2.contains(w)) by {
                    if rest2.contains(w) {
                        let s = choose|s: int| 0 <= s < rest2.len() && rest2[s] == w;
                        assert(dependents@[t + 1 + s] == w);
                    }
                }
                assert forall|x: usize| x != w implies (rest.contains(x) <==> rest2.contains(x)) by {
                    if rest.contains(x) {
                        let s = choose|s: int| 0 <= s < rest.len() && rest[s] == x;
                        assert(s != 0);
                        assert(rest2[s - 1] == x);
                    }
                    if rest2.contains(x) {
                        let s = choose|s: int| 0 <= s < rest2.len() && rest2[s] == x;
                        assert(rest[s + 1] == x);
                    }
                }
                // a project that depends on `idx` is not done yet
                assert(depends(d, w as int, idx as int));
                if after[w as int] {
                    let p = choose|p: int| 0 <= p < ordered@.len() && ordered@[p] == w;
                    assert(depends(d, ordered@[p] as int, idx as int));
                }
                assert(!after[w as int]);
                assert(indeg@[w as int] >= 1);
            }
            let old_deg = indeg[w];
            let ghost q0 = queue@;
            proof {
                assert(dependents@.take(t + 1).drop_last() =~= dependents@.take(t as int));
                assert(dependents@.take(t + 1).last() == w);
                assert(old_deg == pending(d, w as int, after, n as int) + 1);
            }
            indeg.set(w, old_deg - 1);
            if old_deg == 1 {
                proof {
                    assert(!queue@.contains(w)) by {
                        if queue@.contains(w) {
                            let s = choose|s: int| 0 <= s < queue@.len() && queue@[s] == w;
                        }
                    }
                    lemma_push_contains(queue@, w);
                }
                queue.push(w);
                assert(queue@[queue@.len() - 1] == w);
                assert(queue@ =~= old_queue.drop_last() + released_of(d, n as int, dependents@.take(t + 1), after));
            } else {
                assert(queue@ =~= old_queue.drop_last() + released_of(d, n as int, dependents@.take(t + 1), after));
            }
            t = t + 1;
        }
        proof {
            assert(dependents@.subrange(t as int, dependents@.len() as int).len() == 0);
            assert(dependents@.take(dependents@.len() as int) =~= dependents@);
            let fuel = (n - prev.len()) as nat;
            assert(fuel > 0);
            assert(kahn_steps(d, n as int, before, old_queue, fuel)
                == seq![idx] + kahn_steps(d, n as int, after, queue@, (fuel - 1) as nat));
            assert(ordered@ =~= prev + seq![idx]);
            assert((prev + seq![idx]) + kahn_steps(d, n as int, after, queue@, (fuel - 1) as nat)
                =~= prev + (seq![idx] + kahn_steps(d, n as int, after, queue@, (fuel - 1) as nat)));
            done = after;
            assert(respects(ordered@, d)) by {
                assert forall|p: int, q: int|
                    0 <= p < ordered@.len() && 0 <= q < ordered@.len() && depends(d, #[trigger] ordered@[p] as int, #[trigger] ordered@[q] as int)
                    implies q < p by {
                    let last = ordered@.len() - 1;
                    if p < last && q == last {
                        assert(before[ordered@[q] as int]);
                    } else if p < last && q < last {
                        assert(ordered@[p] == prev[p] && ordered@[q] == prev[q]);
                        assert(depends(d, prev[p] as int, prev[q] as int));
                    }
                }
            }
        }
    }
    if ordered.len() == n {
        proof {
            assert(is_permutation(ordered@, n as int));
        }
        Some(ordered)
    } else {
        proof {
            lemma_stuck_is_cycle(d, n as int, done, ordered@, queue@, indeg@);
        }
        None
    }
}

/// The sequence `s` with its elements taken as integers; its set of values.
proof fn lemma_value_set(s: Seq<usize>, n: int) -> (vals: Set<int>)
    requires
        0 <= n <= usize::MAX,
        forall|p: int| 0 <= p < s.len() ==> (#[trigger] s[p]) < n,
        forall|p: int, q: int| 0 <= p < q < s.len() ==> s[p] != s[q],
    ensures
        vals.finite(),
        vals.len() == s.len(),
        vals.subset_of(vstd::set_lib::set_int_range(0, n)),
        forall|x: int| 0 <= x < n ==> (vals.contains(x) <==> s.contains(x as usize)),
{
    let t = s.map_values(|v: usize| v as int);
    assert(t.no_duplicates()) by {
        assert forall|p: int, q: int| 0 <= p < t.len() && 0 <= q < t.len() && p != q implies t[p] != t[q] by {
            if p < q {
            } else {
            }
        }
    }
    t.unique_seq_to_set();
    let vals = t.to_set();
    assert forall|x: int| vals.contains(x) implies vstd::set_lib::set_int_range(0, n).contains(x) by {
        let p = choose|p: int| 0 <= p < t.len() && t[p] == x;
        assert(s[p] as int == x);
    }
    assert forall|x: int| 0 <= x < n implies (vals.contains(x) <==> s.contains(x as usize)) by {
        if vals.contains(x) {
            let p = choose|p: int| 0 <= p < t.len() && t[p] == x;
            assert(s[p] as int == x);
        }
        if s.contains(x as usize) {
            let p = choose|p: int| 0 <= p < s.len() && s[p] == x as usize;
            assert(t[p] == x);
        }
    }
    vals
}

proof fn lemma_distinct_bound(ordered: Seq<usize>, n: int, x: usize)
    requires
        n <= usize::MAX,
        forall|p: int| 0 <= p < ordered.len() ==> (#[trigger] ordered[p]) < n,
        forall|p: int, q: int| 0 <= p < q < ordered.len() ==> ordered[p] != ordered[q],
        x < n,
        !ordered.contains(x),
    ensures
        ordered.len() < n,
{
    let vals = lemma_value_set(ordered, n);
    vstd::set_lib::lemma_int_range(0, n);
    let more = vals.insert(x as int);
    assert(!vals.contains(x as int));
    assert(more.subset_of(vstd::set_lib::set_int_range(0, n)));
    vstd::set_lib::lemma_len_subset(more, vstd::set_lib::set_int_range(0, n));
}

proof fn lemma_stuck_is_cycle(
    d: Seq<Seq<bool>>,
    n: int,
    done: Seq<bool>,
    ordered: Seq<usize>,
    queue: Seq<usize>,
    indeg: Seq<usize>,
)
    requires
        is_table(d, n),
        kahn_inv(d, n, done, ordered, queue, indeg),
        queue.len() == 0,
        ordered.len() != n,
        0 <= n <= usize::MAX,
    ensures
        has_cycle(d, n),
{
    let mask = Seq::new(n as nat, |v: int| !done[v]);
    // some project is not done
    assert(exists|v: int| 0 <= v < n && mask[v]) by {
        if forall|v: int| 0 <= v < n ==> !mask[v] {
            assert forall|v: usize| v < n implies ordered.contains(v) by {
                assert(!mask[v as int]);
                assert(done[v as int]);
            }
            lemma_all_listed(ordered, n);
        }
    }
    assert forall|v: int| 0 <= v < n && #[trigger] mask[v] implies exists|j: int| 0 <= j < n && mask[j] && depends(d, v, j) by {
        assert(!done[v]);
        if indeg[v] == 0 {
            assert(queue.contains(v as usize));
        }
        lemma_pending_positive(d, v, done, n);
        let j = choose|j: int| 0 <= j < n && depends(d, v, j) && !done[j];
        assert(mask[j]);
    }
    assert(is_cycle_set(d, n, mask));
}

proof fn lemma_all_listed(ordered: Seq<usize>, n: int)
    requires
        0 <= n <= usize::MAX,
        forall|p: int| 0 <= p < ordered.len() ==> (#[trigger] ordered[p]) < n,
        forall|p: int, q: int| 0 <= p < q < ordered.len() ==> ordered[p] != ordered[q],
        forall|v: usize| v < n ==> ordered.contains(v),
    ensures
        ordered.len() == n,
{
    let vals = lemma_value_set(ordered, n);
    vstd::set_lib::lemma_int_range(0, n);
    assert(vals =~= vstd::set_lib::set_int_range(0, n)) by {
        assert forall|x: int| vstd::set_lib::set_int_range(0, n).contains(x) implies vals.contains(x) by {
            assert(ordered.contains(x as usize));
        }
    }
    assert(vals.len() == n);
}

/// A permutation of `0..n` lists every one of `0..n`.
proof fn lemma_permutation_covers(order: Seq<usize>, n: int)
    requires
        0 <= n <= usize::MAX,
        is_permutation(order, n),
    ensures
        forall|v: int| 0 <= v < n ==> #[trigger] order.contains(v as usize),
{
    let vals = lemma_value_set(order, n);
    vstd::set_lib::lemma_int_range(0, n);
    vstd::set_lib::lemma_subset_equality(vals, vstd::set_lib::set_int_range(0, n));
    assert forall|v: int| 0 <= v < n implies #[trigger] order.contains(v as usize) by {
        assert(vstd::set_lib::set_int_range(0, n).contains(v));
    }
}

proof fn lemma_prefix_unmarked(order: Seq<usize>, dep: Seq<Seq<bool>>, n: int, mask: Seq<bool>, k: int)
    requires
        0 <= k <= n,
        n <= usize::MAX,
        is_cycle_set(dep, n, mask),
        is_permutation(order, n),
        respects(order, dep),
        forall|v: int| 0 <= v < n ==> #[trigger] order.contains(v as usize),
    ensures
        forall|p: int| 0 <= p < k ==> !mask[#[trigger] order[p] as int],
    decreases k,
{
    if k > 0 {
        lemma_prefix_unmarked(order, dep, n, mask, k - 1);
        let last = k - 1;
        if mask[order[last] as int] {
            let j = choose|j: int| 0 <= j < n && mask[j] && depends(dep, order[last] as int, j);
            assert(order.contains(j as usize));
            let q = choose|q: int| 0 <= q < order.len() && order[q] == j as usize;
            assert(depends(dep, order[last] as int, order[q] as int));
            assert(q < last);
        }
    }
}

/// Law: projects that can be put in an order where each comes after
/// everything it depends on have no circular dependency.
pub proof fn lemma_order_excludes_cycle(order: Seq<usize>, dep: Seq<Seq<bool>>, n: int)
    requires
        0 <= n <= usize::MAX,
        is_table(dep, n),
        is_permutation(order, n),
        respects(order, dep),
    ensures
        !has_cycle(dep, n),
{
    lemma_permutation_covers(order, n);
    if has_cycle(dep, n) {
        let mask = choose|mask: Seq<bool>| is_cycle_set(dep, n, mask);
        lemma_prefix_unmarked(order, dep, n, mask, n);
        let v = choose|v: int| 0 <= v < n && mask[v];
        assert(order.contains(v as usize));
        let p = choose|p: int| 0 <= p < order.len() && order[p] == v as usize;
        assert(!mask[order[p] as int]);
    }
}

/// The projects in the order of `order`.
pub open spec fn pick(projects: Seq<DetectedProject>, order: Seq<usize>) -> Seq<DetectedProject> {
    order.map_values(|i: usize| projects[i as int])
}

/// The order in which to build `projects`, whose dependencies are given by
/// the table `dep`, and whether the dependencies are circular. The order is
/// `kahn_order`, in which each project comes after every project it depends
/// on; when the dependencies are circular no such order exists and the
/// projects keep the order in which they were found.
pub fn resolve_build_order(projects: &Vec<DetectedProject>, dep: &Vec<Vec<bool>>) -> (r: (Vec<DetectedProject>, bool))
    requires
        is_table(dep.deep_view(), projects@.len() as int),
    ensures
        r.1 == has_cycle(dep.deep_view(), projects@.len() as int),
        r.1 ==> r.0@ == projects@,
        !r.1 ==> r.0@ == pick(projects@, kahn_order(dep.deep_view(), projects@.len() as int))
            && is_permutation(kahn_order(dep.deep_view(), projects@.len() as int), projects@.len() as int)
            && respects(kahn_order(dep.deep_view(), projects@.len() as int), dep.deep_view()),
{
    let n = projects.len();
    match build_order_indices(dep) {
        Some(order) => {
            proof {
                lemma_order_excludes_cycle(order@, dep.deep_view(), projects@.len() as int);
            }
            let mut r: Vec<DetectedProject> = Vec::new();
            let mut k: usize = 0;
            while k < order.len()
                invariant
                    k <= order@.len(),
                    is_permutation(order@, projects@.len() as int),
                    r@ == pick(projects@, order@).take(k as int),
                decreases order.len() - k,
            {
                let p = projects[order[k]].clone();
                let ghost prev = r@;
                r.push(p);
                assert(r@ =~= pick(projects@, order@).take(k + 1)) by {
                    assert(r@ =~= prev.push(p));
                }
                k = k + 1;
            }
            assert(pick(projects@, order@).take(order@.len() as int) =~= pick(projects@, order@));
            (r, false)
        },
        None => {
            let mut r: Vec<DetectedProject> = Vec::new();
            let mut k: usize = 0;
            while k < projects.len()
                invariant
                    k <= projects@.len(),
                    r@ == projects@.take(k as int),
                decreases projects.len() - k,
            {
                let p = projects[k].clone();
                let ghost prev = r@;
                r.push(p);
                assert(r@ =~= projects@.take(k + 1)) by {
                    assert(r@ =~= prev.push(p));
                }
                k = k + 1;
            }
            assert(projects@.take(projects@.len() as int) =~= projects@);
            (r, true)
        },
    }
}

// ---------------------------------------------------------------------------
// Groups of projects that can be built together
// ---------------------------------------------------------------------------

/// Neither of two different projects depends on the other.
pub open spec fn independent(dep: Seq<Seq<bool>>, i: int, j: int) -> bool {
    !depends(dep, j, i) && !depends(dep, i, j)
}

/// Project `j` is independent of every project of `g` that comes before it.
pub open spec fn independent_of_members_below(dep: Seq<Seq<bool>>, g: Seq<usize>, j: int) -> bool {
    forall|t: int| 0 <= t < g.len() && g[t] < j ==> independent(dep, #[trigger] g[t] as int, j)
}

/// Every project that project `j` depends on is in a group before group `h`.
pub open spec fn deps_before(dep: Seq<Seq<bool>>, n: int, owner: Seq<int>, j: int, h: int) -> bool {
    forall|v: int| 0 <= v < n && #[trigger] depends(dep, j, v) ==> 0 <= owner[v] < h
}

/// `groups` is what grouping `0..n` produces, `owner[v]` being the group
/// that holds project `v`: each project is in exactly one group, each group
/// lists its projects in increasing order, any two projects of a group are
/// independent, a group's first project (its leader) is the smallest project
/// not in an earlier group, and a later project not in an earlier group
/// joins the group exactly when it is independent of every project the group
/// took before it and everything it depends on is in earlier groups.
pub open spec fn is_grouping(dep: Seq<Seq<bool>>, n: int, groups: Seq<Seq<usize>>, owner: Seq<int>) -> bool {
    &&& owner.len() == n
    &&& forall|v: int| 0 <= v < n ==> 0 <= #[trigger] owner[v] < groups.len()
    &&& forall|h: int| 0 <= h < groups.len() ==> (#[trigger] groups[h]).len() > 0
    &&& forall|h: int, t: int| 0 <= h < groups.len() && 0 <= t < groups[h].len() ==> (#[trigger] groups[h][t]) < n && owner[groups[h][t] as int] == h
    &&& forall|h: int, s: int, t: int| 0 <= h < groups.len() && 0 <= s < t < groups[h].len() ==> groups[h][s] < groups[h][t]
    &&& forall|h: int, s: int, t: int| 0 <= h < groups.len() && 0 <= s < t < groups[h].len()
        ==> independent(dep, #[trigger] groups[h][s] as int, #[trigger] groups[h][t] as int)
    &&& forall|h: int, t: int| 0 <= h < groups.len() && 0 < t < groups[h].len() ==> deps_before(dep, n, owner, #[trigger] groups[h][t] as int, h)
    &&& forall|h: int, v: int| #![trigger groups[h], owner[v]] 0 <= h < groups.len() && 0 <= v < groups[h][0] ==> owner[v] < h
    &&& forall|h: int, j: int| #![trigger groups[h], owner[j]] 0 <= h < groups.len() && groups[h][0] < j < n && owner[j] >= h
        && independent_of_members_below(dep, groups[h], j) && deps_before(dep, n, owner, j, h) ==> owner[j] == h
}

/// Law: when every project comes after all the projects it depends on (as
/// in a build order), each group's projects depend only on projects of
/// earlier groups, so building the groups one after the other builds every
/// project after its dependencies.
pub proof fn lemma_groups_follow_dependencies(dep: Seq<Seq<bool>>, n: int, groups: Seq<Seq<usize>>, owner: Seq<int>)
    requires
        is_grouping(dep, n, groups, owner),
        forall|i: int, j: int| 0 <= i < n && 0 <= j < n && #[trigger] depends(dep, i, j) ==> j < i,
    ensures
        forall|h: int, t: int, v: int|
            0 <= h < groups.len() && 0 <= t < groups[h].len() && 0 <= v < n && depends(dep, #[trigger] groups[h][t] as int, v)
                ==> #[trigger] owner[v] < h,
{
    assert forall|h: int, t: int, v: int|
        0 <= h < groups.len() && 0 <= t < groups[h].len() && 0 <= v < n && depends(dep, #[trigger] groups[h][t] as int, v)
            implies #[trigger] owner[v] < h by {
        if t == 0 {
            assert(groups[h][0] < n);
            assert(v < groups[h][0]);
        } else {
            assert(deps_before(dep, n, owner, groups[h][t] as int, h));
        }
    }
}

/// Every project listed in `owner` is in the group it names.
pub open spec fn owners_listed(groups: Seq<Seq<usize>>, owner: Seq<int>) -> bool {
    forall|v: int| 0 <= v < owner.len() && 0 <= #[trigger] owner[v] < groups.len() ==> groups[owner[v]].contains(v as usize)
}

/// Adding project `j` to group `h` (its owner going from none to `h`) keeps
/// what the grouping loop knows.
proof fn lemma_join_keeps(
    d: Seq<Seq<bool>>,
    n: int,
    old_owner: Seq<int>,
    owner: Seq<int>,
    j: int,
    h: int,
    before: Seq<usize>,
    group: Seq<usize>,
    i: int,
    groups: Seq<Vec<usize>>,
)
    requires
        0 <= i < j < n,
        n <= usize::MAX,
        h == groups.len(),
        old_owner.len() == n,
        old_owner[j] < 0,
        owner == old_owner.update(j, h),
        group == before.push(j as usize),
        forall|t: int| 0 <= t < before.len() ==> (#[trigger] before[t]) < j,
        forall|t: int| 0 <= t < before.len() ==> independent(d, #[trigger] before[t] as int, j),
        deps_before(d, n, old_owner, j, h),
        forall|s: int, t: int| 0 <= s < t < before.len() ==> independent(d, #[trigger] before[s] as int, #[trigger] before[t] as int),
        forall|v: int| i < v < j && old_owner[v] < 0 ==> !(#[trigger] independent_of_members_below(d, before, v)
            && deps_before(d, n, old_owner, v, h)),
        forall|t: int| 0 < t < before.len() ==> deps_before(d, n, old_owner, #[trigger] before[t] as int, h),
        forall|g: int, t: int| 0 <= g < h && 0 < t < groups[g]@.len() ==> deps_before(d, n, old_owner, #[trigger] groups[g]@[t] as int, g),
        forall|g: int, v: int| #![trigger groups[g], old_owner[v]] 0 <= g < h && groups[g]@[0] < v < n && (old_owner[v] >= g || old_owner[v] < 0)
            && independent_of_members_below(d, groups[g]@, v) && deps_before(d, n, old_owner, v, g) ==> old_owner[v] == g,
        forall|g: int| 0 <= g < h ==> (#[trigger] groups[g]@).len() > 0 && groups[g]@[0] < i,
    ensures
        forall|s: int, t: int| 0 <= s < t < group.len() ==> independent(d, #[trigger] group[s] as int, #[trigger] group[t] as int),
        forall|v: int| i < v < j + 1 && owner[v] < 0 ==> !(#[trigger] independent_of_members_below(d, group, v)
            && deps_before(d, n, owner, v, h)),
        forall|t: int| 0 < t < group.len() ==> deps_before(d, n, owner, #[trigger] group[t] as int, h),
        forall|g: int, t: int| 0 <= g < h && 0 < t < groups[g]@.len() ==> deps_before(d, n, owner, #[trigger] groups[g]@[t] as int, g),
        forall|g: int, v: int| #![trigger groups[g], owner[v]] 0 <= g < h && groups[g]@[0] < v < n && (owner[v] >= g || owner[v] < 0)
            && independent_of_members_below(d, groups[g]@, v) && deps_before(d, n, owner, v, g) ==> owner[v] == g,
{
    // a project's dependencies never include `j`, whose owner was none
    assert forall|x: int, g: int| deps_before(d, n, old_owner, x, g) && x != j implies deps_before(d, n, owner, x, g) by {
        assert forall|w: int| 0 <= w < n && #[trigger] depends(d, x, w) implies 0 <= owner[w] < g by {
            assert(0 <= old_owner[w] < g);
        }
    }
    assert forall|x: int, g: int| deps_before(d, n, owner, x, g) && x != j && g <= h implies deps_before(d, n, old_owner, x, g) by {
        assert forall|w: int| 0 <= w < n && #[trigger] depends(d, x, w) implies 0 <= old_owner[w] < g by {
            assert(0 <= owner[w] < g);
            assert(w != j);
        }
    }
    assert(deps_before(d, n, owner, j, h)) by {
        assert forall|w: int| 0 <= w < n && #[trigger] depends(d, j, w) implies 0 <= owner[w] < h by {
            assert(w != j);
        }
    }
    assert forall|s: int, t: int| 0 <= s < t < group.len() implies independent(d, #[trigger] group[s] as int, #[trigger] group[t] as int) by {
        if t == group.len() - 1 {
            assert(group[s] == before[s]);
            assert(group[t] as int == j);
        } else {
            assert(group[s] == before[s] && group[t] == before[t]);
        }
    }
    assert forall|v: int| i < v < j + 1 && owner[v] < 0 implies !(#[trigger] independent_of_members_below(d, group, v)
        && deps_before(d, n, owner, v, h)) by {
        assert(v != j);
        if independent_of_members_below(d, group, v) && deps_before(d, n, owner, v, h) {
            assert forall|t: int| 0 <= t < before.len() && before[t] < v implies independent(d, #[trigger] before[t] as int, v) by {
                assert(group[t] == before[t]);
            }
            assert(independent_of_members_below(d, before, v));
            assert(deps_before(d, n, old_owner, v, h));
        }
    }
    assert forall|t: int| 0 < t < group.len() implies deps_before(d, n, owner, #[trigger] group[t] as int, h) by {
        if t < before.len() {
            assert(group[t] == before[t]);
            assert(before[t] < j);
        } else {
            assert(group[t] as int == j);
        }
    }
    assert forall|g: int, v: int| #![trigger groups[g], owner[v]] 0 <= g < h && groups[g]@[0] < v < n && (owner[v] >= g || owner[v] < 0)
        && independent_of_members_below(d, groups[g]@, v) && deps_before(d, n, owner, v, g) implies owner[v] == g by {
        if v == j {
            assert(deps_before(d, n, old_owner, j, g)) by {
                assert forall|w: int| 0 <= w < n && #[trigger] depends(d, j, w) implies 0 <= old_owner[w] < g by {
                    assert(w != j);
                    assert(0 <= owner[w] < g);
                }
            }
            assert(old_owner[j] == g);
        } else {
            assert(owner[v] == old_owner[v]);
            assert(deps_before(d, n, old_owner, v, g));
        }
    }
}

/// Whether every project that project `j` depends on is marked in `done`.
fn dependencies_done(dep: &Vec<Vec<bool>>, done: &Vec<bool>, j: usize) -> (r: bool)
    requires
        is_table(dep.deep_view(), dep@.len() as int),
        j < dep@.len(),
        done@.len() == dep@.len(),
    ensures
        r == (forall|v: int| 0 <= v < dep@.len() && #[trigger] depends(dep.deep_view(), j as int, v) ==> done@[v]),
{
    let ghost d = dep.deep_view();
    let n = dep.len();
    let mut v: usize = 0;
    while v < n
        invariant
            d == dep.deep_view(),
            is_table(d, n as int),
            n == dep@.len(),
            j < n,
            done@.len() == n,
            v <= n,
            forall|w: int| 0 <= w < v && #[trigger] depends(d, j as int, w) ==> done@[w],
        decreases n - v,
    {
        assert(d[j as int] == dep@[j as int].deep_view());
        assert(dep@[j as int].deep_view()[v as int] == dep@[j as int]@[v as int]);
        if v != j && dep[j][v] && !done[v] {
            assert(depends(d, j as int, v as int));
            return false;
        }
        v = v + 1;
    }
    true
}

/// Whether project `j` is independent of every project of `group`.
fn independent_of_all(dep: &Vec<Vec<bool>>, group: &Vec<usize>, j: usize) -> (r: bool)
    requires
        is_table(dep.deep_view(), dep@.len() as int),
        j < dep@.len(),
        forall|t: int| 0 <= t < group@.len() ==> (#[trigger] group@[t]) < dep@.len(),
    ensures
        r == (forall|t: int| 0 <= t < group@.len() ==> independent(dep.deep_view(), #[trigger] group@[t] as int, j as int)),
{
    let ghost d = dep.deep_view();
    let mut t: usize = 0;
    while t < group.len()
        invariant
            d == dep.deep_view(),
            is_table(d, dep@.len() as int),
            j < dep@.len(),
            forall|u: int| 0 <= u < group@.len() ==> (#[trigger] group@[u]) < dep@.len(),
            t <= group@.len(),
            forall|u: int| 0 <= u < t ==> independent(d, #[trigger] group@[u] as int, j as int),
        decreases group.len() - t,
    {
        let m = group[t];
        assert(d[j as int] == dep@[j as int].deep_view());
        assert(d[m as int] == dep@[m as int].deep_view());
        assert(dep@[j as int].deep_view()[m as int] == dep@[j as int]@[m as int]);
        assert(dep@[m as int].deep_view()[j as int] == dep@[m as int]@[j as int]);
        if (m != j && dep[j][m]) || (m != j && dep[m][j]) {
            assert(!independent(d, group@[t as int] as int, j as int));
            return false;
        }
        t = t + 1;
    }
    true
}

/// Groups of projects that can be built at the same time: each group is led
/// by the first project not yet grouped and takes, in order, every later
/// project not yet grouped that is independent of all the projects the group
/// already holds and whose dependencies are all in earlier groups.
pub fn independent_groups(dep: &Vec<Vec<bool>>) -> (r: Vec<Vec<usize>>)
    requires
        is_table(dep.deep_view(), dep@.len() as int),
    ensures
        exists|owner: Seq<int>| is_grouping(dep.deep_view(), dep@.len() as int, r.deep_view(), owner) && owners_listed(r.deep_view(), owner),
{
    let ghost d = dep.deep_view();
    let n = dep.len();
    let mut groups: Vec<Vec<usize>> = Vec::new();
    let ghost mut owner: Seq<int> = Seq::new(n as nat, |v: int| -1);
    let mut seen: Vec<bool> = Vec::new();
    let mut k: usize = 0;
    while k < n
        invariant
            k <= n,
            seen@.len() == k,
            forall|v: int| 0 <= v < k ==> !seen@[v],
        decreases n - k,
    {
        seen.push(false);
        k = k + 1;
    }
    let mut i: usize = 0;
    while i < n
        invariant
            n == dep@.len(),
            d == dep.deep_view(),
            is_table(d, n as int),
            i <= n,
            seen@.len() == n,
            owner.len() == n,
            forall|v: int| 0 <= v < n ==> (#[trigger] seen@[v] <==> 0 <= owner[v]),
            forall|v: int| 0 <= v < n ==> -1 <= #[trigger] owner[v] < groups@.len(),
            forall|v: int| 0 <= v < i ==> 0 <= #[trigger] owner[v],
            forall|h: int| 0 <= h < groups@.len() ==> (#[trigger] groups@[h]@).len() > 0 && groups@[h]@[0] < i,
            forall|h: int, t: int| 0 <= h < groups@.len() && 0 <= t < groups@[h]@.len() ==> (#[trigger] groups@[h]@[t]) < n && owner[groups@[h]@[t] as int] == h,
            forall|h: int, s: int, t: int| 0 <= h < groups@.len() && 0 <= s < t < groups@[h]@.len() ==> groups@[h]@[s] < groups@[h]@[t],
            forall|h: int, s: int, t: int| 0 <= h < groups@.len() && 0 <= s < t < groups@[h]@.len()
                ==> independent(d, #[trigger] groups@[h]@[s] as int, #[trigger] groups@[h]@[t] as int),
            forall|h: int, t: int| 0 <= h < groups@.len() && 0 < t < groups@[h]@.len() ==> deps_before(d, n as int, owner, #[trigger] groups@[h]@[t] as int, h),
            forall|h: int, v: int| #![trigger groups@[h], owner[v]] 0 <= h < groups@.len() && 0 <= v < groups@[h]@[0] ==> 0 <= owner[v] < h,
            forall|h: int, j: int| #![trigger groups@[h], owner[j]] 0 <= h < groups@.len() && groups@[h]@[0] < j < n && (owner[j] >= h || owner[j] < 0)
                && independent_of_members_below(d, groups@[h]@, j) && deps_before(d, n as int, owner, j, h) ==> owner[j] == h,
            forall|v: int| 0 <= v < n && 0 <= #[trigger] owner[v] ==> groups@[owner[v]]@.contains(v as usize),
        decreases n - i,
    {
        if !seen[i] {
            let h = groups.len();
            let seen_before = seen.clone();
            let mut group: Vec<usize> = Vec::new();
            group.push(i);
            seen.set(i, true);
            proof {
                owner = owner.update(i as int, h as int);
                assert(group@[0] == i);
                assert(group@.contains(i));
            }
            let mut j: usize = i + 1;
            while j < n
                invariant
                    n == dep@.len(),
                    d == dep.deep_view(),
                    is_table(d, n as int),
                    i < j <= n,
                    h == groups@.len(),
                    seen@.len() == n,
                    owner.len() == n,
                    group@.len() > 0,
                    group@[0] == i,
                    owner[i as int] == h,
                    forall|v: int| 0 <= v < n ==> (#[trigger] seen@[v] <==> 0 <= owner[v]),
                    forall|v: int| 0 <= v < n ==> -1 <= #[trigger] owner[v] <= h,
                    forall|v: int| 0 <= v < i ==> 0 <= #[trigger] owner[v] < h,
                    forall|t: int| 0 <= t < group@.len() ==> (#[trigger] group@[t]) < j && owner[group@[t] as int] == h,
                    forall|v: int| 0 <= v < n && #[trigger] owner[v] == h ==> group@.contains(v as usize),
                    forall|s: int, t: int| 0 <= s < t < group@.len() ==> group@[s] < group@[t],
                    forall|s: int, t: int| 0 <= s < t < group@.len() ==> independent(d, #[trigger] group@[s] as int, #[trigger] group@[t] as int),
                    forall|v: int| i < v < j && owner[v] < 0 ==> !(#[trigger] independent_of_members_below(d, group@, v) && deps_before(d, n as int, owner, v, h as int)),
                    forall|t: int| 0 < t < group@.len() ==> deps_before(d, n as int, owner, #[trigger] group@[t] as int, h as int),
                    seen_before@.len() == n,
                    forall|v: int| 0 <= v < n ==> (#[trigger] seen_before@[v] <==> 0 <= owner[v] < h),
                    // earlier groups are untouched
                    forall|g: int| 0 <= g < h ==> (#[trigger] groups@[g]@).len() > 0 && groups@[g]@[0] < i,
                    forall|g: int, t: int| 0 <= g < h && 0 <= t < groups@[g]@.len() ==> (#[trigger] groups@[g]@[t]) < n && owner[groups@[g]@[t] as int] == g,
                    forall|g: int, s: int, t: int| 0 <= g < h && 0 <= s < t < groups@[g]@.len() ==> groups@[g]@[s] < groups@[g]@[t],
                    forall|g: int, s: int, t: int| 0 <= g < h && 0 <= s < t < groups@[g]@.len()
                        ==> independent(d, #[trigger] groups@[g]@[s] as int, #[trigger] groups@[g]@[t] as int),
                    forall|g: int, t: int| 0 <= g < h && 0 < t < groups@[g]@.len() ==> deps_before(d, n as int, owner, #[trigger] groups@[g]@[t] as int, g),
                    forall|g: int, v: int| #![trigger groups@[g], owner[v]] 0 <= g < h && 0 <= v < groups@[g]@[0] ==> 0 <= owner[v] < g,
                    forall|g: int, v: int| #![trigger groups@[g], owner[v]] 0 <= g < h && groups@[g]@[0] < v < n && (owner[v] >= g || owner[v] < 0)
                        && independent_of_members_below(d, groups@[g]@, v) && deps_before(d, n as int, owner, v, g) ==> owner[v] == g,
                    forall|v: int| 0 <= v < n && 0 <= #[trigger] owner[v] < h ==> groups@[owner[v]]@.contains(v as usize),
                decreases n - j,
            {
                let fits = !seen[j] && independent_of_all(dep, &group, j) && dependencies_done(dep, &seen_before, j);
                proof {
                    assert(independent_of_members_below(d, group@, j as int) == (forall|t: int|
                        0 <= t < group@.len() ==> independent(d, #[trigger] group@[t] as int, j as int)));
                    assert((forall|v: int| 0 <= v < n && #[trigger] depends(d, j as int, v) ==> seen_before@[v])
                        == deps_before(d, n as int, owner, j as int, h as int));
                }
                let ghost before = group@;
                let ghost old_owner = owner;
                if fits {
                    proof {
                        lemma_push_contains(group@, j);
                    }
                    group.push(j);
                    seen.set(j, true);
                    proof {
                        owner = owner.update(j as int, h as int);
                        lemma_join_keeps(d, n as int, old_owner, owner, j as int, h as int, before, group@, i as int, groups@);
                    }
                } else {
                    proof {
                        assert forall|v: int| i < v < j + 1 && owner[v] < 0 implies !(#[trigger] independent_of_members_below(d, group@, v)
                            && deps_before(d, n as int, owner, v, h as int)) by {
                            if v == j {
                                assert(!seen@[j as int]);
                            }
                        }
                    }
                }
                j = j + 1;
            }
            let ghost prev_groups = groups@;
            groups.push(group);
            proof {
                assert(groups@[h as int] == group);
                assert forall|g: int| 0 <= g < h implies #[trigger] groups@[g] == prev_groups[g] by {}
            }
        }
        i = i + 1;
    }
    proof {
        assert(groups.deep_view().len() == groups@.len());
        assert forall|h: int| 0 <= h < groups@.len() implies #[trigger] groups.deep_view()[h] == groups@[h]@ by {}
        assert(is_grouping(d, n as int, groups.deep_view(), owner));
        assert(owners_listed(groups.deep_view(), owner));
    }
    groups
}

/// The projects grouped as `independent_groups` groups their indices.
pub fn find_independent_groups(projects: &Vec<DetectedProject>, dep: &Vec<Vec<bool>>) -> (r: Vec<Vec<DetectedProject>>)
    requires
        is_table(dep.deep_view(), projects@.len() as int),
    ensures
        exists|groups: Seq<Seq<usize>>, owner: Seq<int>|
            is_grouping(dep.deep_view(), projects@.len() as int, groups, owner) && owners_listed(groups, owner)
                && r@.len() == groups.len() && forall|h: int| 0 <= h < groups.len() ==> #[trigger] r@[h]@ == pick(projects@, groups[h]),
{
    let groups = independent_groups(dep);
    let ghost g = groups.deep_view();
    let mut r: Vec<Vec<DetectedProject>> = Vec::new();
    let mut h: usize = 0;
    while h < groups.len()
        invariant
            h <= groups@.len(),
            g == groups.deep_view(),
            exists|owner: Seq<int>| is_grouping(dep.deep_view(), projects@.len() as int, g, owner),
            r@.len() == h,
            forall|x: int| 0 <= x < h ==> #[trigger] r@[x]@ == pick(projects@, g[x]),
        decreases groups.len() - h,
    {
        let members = &groups[h];
        assert(g[h as int] == members@);
        let mut out: Vec<DetectedProject> = Vec::new();
        let mut t: usize = 0;
        while t < members.len()
            invariant
                t <= members@.len(),
                g[h as int] == members@,
                h < g.len(),
                exists|owner: Seq<int>| is_grouping(dep.deep_view(), projects@.len() as int, g, owner),
                out@ == pick(projects@, members@).take(t as int),
            decreases members.len() - t,
        {
            let ghost owner = choose|owner: Seq<int>| is_grouping(dep.deep_view(), projects@.len() as int, g, owner);
            assert(g[h as int][t as int] < projects@.len());
            let p = projects[members[t]].clone();
            let ghost prev = out@;
            out.push(p);
            assert(out@ =~= pick(projects@, members@).take(t + 1)) by {
                assert(out@ =~= prev.push(p));
            }
            t = t + 1;
        }
        assert(pick(projects@, members@).take(members@.len() as int) =~= pick(projects@, members@));
        r.push(out);
        h = h + 1;
    }
    r
}

// ---------------------------------------------------------------------------
// Dependencies declared in manifests
// ---------------------------------------------------------------------------

/// The part of `content` that starts at the first `section` header and runs
/// to the next `[`, mentions both `name` and `path`.
pub open spec fn section_mentions(content: Seq<char>, section: Seq<char>, name: Seq<char>) -> bool {
    match first_occurrence(content, section) {
        None => false,
        Some(idx) => {
            let rest = content.skip(idx);
            if rest.len() == 0 {
                false
            } else {
            match first_occurrence(rest.skip(1), "["@) {
                Some(end) => {
                    let slice = rest.take(end + 1);
                    contains(slice, name) && contains(slice, "path"@)
                },
                None => contains(rest, name) && contains(rest, "path"@),
            }
            }
        },
    }
}

/// A `Cargo.toml` declares a path dependency on the crate in directory
/// `name`, whose path relative to the manifest's parent is `relative`.
pub open spec fn rust_manifest_depends(content: Seq<char>, name: Seq<char>, relative: Seq<char>) -> bool {
    ||| contains(content, "path = "@) && contains(content, relative)
    ||| contains(content, name) && (section_mentions(content, "[dependencies]"@, name)
        || section_mentions(content, "[dev-dependencies]"@, name)
        || section_mentions(content, "[build-dependencies]"@, name))
}

/// The manifest `content` of a project in language `lang` declares a
/// dependency on the project in directory `name`.
pub open spec fn spec_manifest_declares(lang: Language, content: Seq<char>, name: Option<Seq<char>>, relative: Seq<char>) -> bool {
    match name {
        None => false,
        Some(n) => match lang {
            Language::Rust => rust_manifest_depends(content, n, relative),
            Language::Go => contains(content, "replace"@) && contains(content, n),
            Language::Python => contains(content, n) && contains(content, "path"@),
            Language::C => contains(content, "add_subdirectory"@) && contains(content, n),
            Language::Zig => contains(content, "dependency"@) && contains(content, n),
            Language::TypeScript => false,
        },
    }
}

#[verifier::rlimit(60)]
#[verifier::spinoff_prover]
fn section_mentions_exec(content: &Vec<char>, section: &str, name: &Vec<char>) -> (r: bool)
    ensures
        r == section_mentions(content@, section@, name@),
{
    let sec = to_chars(section);
    let path = to_chars("path");
    let open = to_chars("[");
    match find(content.as_slice(), sec.as_slice()) {
        None => false,
        Some(idx) => {
            let rest: Vec<char> = slice_from(content, idx);
            if rest.len() == 0 {
                // the section header is never empty
                return false;
            }
            let tail = slice_from(&rest, 1);
            match find(tail.as_slice(), open.as_slice()) {
                Some(end) => {
                    assert(end + 1 <= rest@.len()) by {
                        assert(occurs_at(tail@, open@, end as int));
                    }
                    let slice = slice_to(&rest, end + 1);
                    let a = contains_chars(slice.as_slice(), name.as_slice());
                    let b = contains_chars(slice.as_slice(), path.as_slice());
                    a && b
                },
                None => {
                    let a = contains_chars(rest.as_slice(), name.as_slice());
                    let b = contains_chars(rest.as_slice(), path.as_slice());
                    a && b
                },
            }
        },
    }
}


/// `v[from..]`.
fn slice_from(v: &Vec<char>, from: usize) -> (r: Vec<char>)
    requires
        from <= v@.len(),
    ensures
        r@ == v@.skip(from as int),
{
    let mut r: Vec<char> = Vec::new();
    let mut i = from;
    while i < v.len()
        invariant
            from <= i <= v@.len(),
            r@ == v@.subrange(from as int, i as int),
        decreases v.len() - i,
    {
        r.push(v[i]);
        i = i + 1;
        assert(r@ =~= v@.subrange(from as int, i as int));
    }
    assert(v@.skip(from as int) =~= v@.subrange(from as int, v@.len() as int));
    r
}

/// `v[..to]`.
fn slice_to(v: &Vec<char>, to: usize) -> (r: Vec<char>)
    requires
        to <= v@.len(),
    ensures
        r@ == v@.take(to as int),
{
    let mut r: Vec<char> = Vec::new();
    let mut i: usize = 0;
    while i < to
        invariant
            i <= to <= v@.len(),
            r@ == v@.take(i as int),
        decreases to - i,
    {
        r.push(v[i]);
        i = i + 1;
        assert(r@ =~= v@.take(i as int));
    }
    r
}

/// The first place where `needle` occurs is `at` when it occurs there and
/// nowhere before.
proof fn lemma_first_occurrence_at(hay: Seq<char>, needle: Seq<char>, at: int)
    requires
        occurs_at(hay, needle, at),
        forall|k: int| 0 <= k < at ==> !occurs_at(hay, needle, k),
    ensures
        first_occurrence(hay, needle) == Some(at),
{
    assert(contains(hay, needle));
    let c = choose|i: int| occurs_at(hay, needle, i) && forall|j: int| 0 <= j < i ==> !occurs_at(hay, needle, j);
    assert(occurs_at(hay, needle, c));
    if c < at {
        assert(!occurs_at(hay, needle, c));
    }
    if c > at {
        assert(!occurs_at(hay, needle, at));
    }
}

/// What occurs in a part of a text occurs in the text.
proof fn lemma_contains_from_part(hay: Seq<char>, lo: int, hi: int, needle: Seq<char>)
    requires
        0 <= lo <= hi <= hay.len(),
        contains(hay.subrange(lo, hi), needle),
    ensures
        contains(hay, needle),
{
    let part = hay.subrange(lo, hi);
    let i = choose|i: int| occurs_at(part, needle, i);
    assert(hay.subrange(lo + i, lo + i + needle.len()) =~= part.subrange(i, i + needle.len()));
    assert(occurs_at(hay, needle, lo + i));
}

/// Law: a Rust manifest declares a dependency on the project in directory
/// `name` when one of its dependency tables (`[dependencies]`,
/// `[dev-dependencies]` or `[build-dependencies]`), taken from the first
/// place its header appears up to the next `[`, names that directory and
/// holds `path` — whatever relative path is given.
pub proof fn lemma_dependency_table_declares(
    content: Seq<char>,
    header: Seq<char>,
    name: Seq<char>,
    relative: Seq<char>,
    at: int,
    end: int,
)
    requires
        header == "[dependencies]"@ || header == "[dev-dependencies]"@ || header == "[build-dependencies]"@,
        occurs_at(content, header, at),
        forall|k: int| 0 <= k < at ==> !occurs_at(content, header, k),
        at < end <= content.len(),
        forall|k: int| at < k < end ==> content[k] != '[',
        end == content.len() || content[end] == '[',
        contains(content.subrange(at, end), name),
        contains(content.subrange(at, end), "path"@),
    ensures
        spec_manifest_declares(Language::Rust, content, Some(name), relative),
{
    reveal_strlit("[");
    lemma_first_occurrence_at(content, header, at);
    lemma_contains_from_part(content, at, end, name);
    let rest = content.skip(at);
    let tail = rest.skip(1);
    assert(rest.len() > 0);
    if end < content.len() {
        let e = end - at - 1;
        assert("["@ =~= seq!['[']);
        assert(tail[e] == content[end]);
        assert(tail.subrange(e, e + 1) =~= seq![content[end]]);
        assert(occurs_at(tail, "["@, e));
        assert forall|k: int| 0 <= k < e implies !occurs_at(tail, "["@, k) by {
            assert(tail.subrange(k, k + 1)[0] == content[at + 1 + k]);
        }
        lemma_first_occurrence_at(tail, "["@, e);
        assert(rest.take(e + 1) =~= content.subrange(at, end));
    } else {
        assert forall|k: int| !occurs_at(tail, "["@, k) by {
            if 0 <= k && k + 1 <= tail.len() {
                assert(tail.subrange(k, k + 1)[0] == content[at + 1 + k]);
            }
        }
        assert(!contains(tail, "["@));
        assert(rest =~= content.subrange(at, end));
    }
    assert(section_mentions(content, header, name));
}

/// Law: a manifest that holds the words its language's tool uses for a local
/// dependency, and the directory name, declares the dependency: a Cargo.toml
/// with `path = ` and the relative path, a go.mod with `replace` and the
/// name, a pyproject.toml with the name and `path`, a CMakeLists.txt with
/// `add_subdirectory` and the name, a build.zig with `dependency` and the
/// name. Without those words a go.mod, pyproject.toml, CMakeLists.txt or
/// build.zig declares none, a package.json is never read here, and a
/// project whose directory has no name is never depended on.
pub proof fn lemma_manifest_words_declare(lang: Language, content: Seq<char>, name: Seq<char>, relative: Seq<char>)
    ensures
        lang == Language::Rust && contains(content, "path = "@) && contains(content, relative)
            ==> spec_manifest_declares(lang, content, Some(name), relative),
        lang == Language::Go ==> (spec_manifest_declares(lang, content, Some(name), relative)
            <==> contains(content, "replace"@) && contains(content, name)),
        lang == Language::Python ==> (spec_manifest_declares(lang, content, Some(name), relative)
            <==> contains(content, name) && contains(content, "path"@)),
        lang == Language::C ==> (spec_manifest_declares(lang, content, Some(name), relative)
            <==> contains(content, "add_subdirectory"@) && contains(content, name)),
        lang == Language::Zig ==> (spec_manifest_declares(lang, content, Some(name), relative)
            <==> contains(content, "dependency"@) && contains(content, name)),
        lang == Language::TypeScript ==> !spec_manifest_declares(lang, content, Some(name), relative),
        !spec_manifest_declares(lang, content, None, relative),
{
}

/// Whether the manifest `content` of a project in language `lang` declares a
/// dependency on the project whose directory is called `name` (when its
/// name is known) and lies at `relative` from the manifest's parent
/// directory. TypeScript manifests are looked at by `local_package_paths`.
pub fn manifest_declares_dependency(lang: Language, content: &str, name: Option<&str>, relative: &str) -> (r: bool)
    ensures
        r == spec_manifest_declares(lang, content@, match name { Some(n) => Some(n@), None => None }, relative@),
{
    let n = match name {
        Some(n) => to_chars(n),
        None => { return false; },
    };
    let c = to_chars(content);
    match lang {
        Language::Rust => {
            let path_eq = to_chars("path = ");
            let rel = to_chars(relative);
            if contains_chars(c.as_slice(), path_eq.as_slice()) && contains_chars(c.as_slice(), rel.as_slice()) {
                return true;
            }
            if contains_chars(c.as_slice(), n.as_slice()) {
                if section_mentions_exec(&c, "[dependencies]", &n) {
                    return true;
                }
                if section_mentions_exec(&c, "[dev-dependencies]", &n) {
                    return true;
                }
                if section_mentions_exec(&c, "[build-dependencies]", &n) {
                    return true;
                }
            }
            false
        },
        Language::Go => {
            let w = to_chars("replace");
            contains_chars(c.as_slice(), w.as_slice()) && contains_chars(c.as_slice(), n.as_slice())
        },
        Language::Python => {
            let w = to_chars("path");
            contains_chars(c.as_slice(), n.as_slice()) && contains_chars(c.as_slice(), w.as_slice())
        },
        Language::C => {
            let w = to_chars("add_subdirectory");
            contains_chars(c.as_slice(), w.as_slice()) && contains_chars(c.as_slice(), n.as_slice())
        },
        Language::Zig => {
            let w = to_chars("dependency");
            contains_chars(c.as_slice(), w.as_slice()) && contains_chars(c.as_slice(), n.as_slice())
        },
        Language::TypeScript => false,
    }
}

/// `s` with every leading repetition of the non-empty `prefix` removed.
pub open spec fn strip_repeated(s: Seq<char>, prefix: Seq<char>) -> Seq<char>
    decreases s.len(),
{
    if prefix.len() > 0 && starts_with(s, prefix) {
        strip_repeated(s.skip(prefix.len() as int), prefix)
    } else {
        s
    }
}

/// A package version that names a local directory: it starts with `file:`,
/// `link:` or `workspace:`.
pub open spec fn is_local_version(v: Seq<char>) -> bool {
    starts_with(v, "file:"@) || starts_with(v, "link:"@) || starts_with(v, "workspace:"@)
}

/// The directory that a local package version names: the version with the
/// leading `file:`, then `link:`, then `workspace:` markers taken off.
pub open spec fn local_dep_path(v: Seq<char>) -> Seq<char> {
    strip_repeated(strip_repeated(strip_repeated(v, "file:"@), "link:"@), "workspace:"@)
}

/// The object `section` of a parsed `package.json` has a member whose value
/// is a local version naming the directory `path`.
pub open spec fn section_declares_local(doc: Option<JsonModel>, section: Seq<char>, path: Seq<char>) -> bool {
    match member_of(doc, section) {
        Some(JsonModel::Object(m)) => exists|k: Seq<char>|
            #[trigger] m.contains_key(k) && (m[k] matches JsonModel::Str(v) && is_local_version(v) && local_dep_path(v) == path),
        _ => false,
    }
}

/// A parsed `package.json` declares a dependency or dev-dependency on the
/// local directory `path` (relative to the package).
pub open spec fn doc_declares_local_path(doc: Option<JsonModel>, path: Seq<char>) -> bool {
    section_declares_local(doc, "dependencies"@, path) || section_declares_local(doc, "devDependencies"@, path)
}

/// A `package.json` text declares a dependency or dev-dependency on the local
/// directory `path` (relative to the package).
pub open spec fn declares_local_path(content: Seq<char>, path: Seq<char>) -> bool {
    doc_declares_local_path(json_parse(content), path)
}

/// `s` with every leading repetition of the non-empty `prefix` removed.
fn strip_prefix_repeatedly(s: &Vec<char>, prefix: &str) -> (r: Vec<char>)
    requires
        prefix@.len() > 0,
    ensures
        r@ == strip_repeated(s@, prefix@),
{
    let p = to_chars(prefix);
    let mut from: usize = 0;
    assert(s@.skip(0) =~= s@);
    while from < s.len() && matches_prefix_at(s, &p, from)
        invariant
            from <= s@.len(),
            p@ == prefix@,
            p@.len() > 0,
            strip_repeated(s@.skip(from as int), p@) == strip_repeated(s@, p@),
        decreases s.len() - from,
    {
        proof {
            assert(s@.skip(from as int).skip(p@.len() as int) =~= s@.skip(from + p@.len()));
        }
        from = from + p.len();
    }
    proof {
        if from == s@.len() {
            assert(!starts_with(s@.skip(from as int), p@));
        }
    }
    let r = slice_from(s, from);
    r
}

/// Whether `prefix` starts at index `from` of `s`.
fn matches_prefix_at(s: &Vec<char>, prefix: &Vec<char>, from: usize) -> (r: bool)
    requires
        from <= s@.len(),
    ensures
        r == starts_with(s@.skip(from as int), prefix@),
        r ==> from + prefix@.len() <= s@.len(),
{
    let r = crate::text::matches_at(s.as_slice(), prefix.as_slice(), from);
    proof {
        if r {
            assert(s@.skip(from as int).take(prefix@.len() as int) =~= s@.subrange(from as int, from + prefix@.len()));
        } else if prefix@.len() <= s@.skip(from as int).len() {
            assert(s@.skip(from as int).take(prefix@.len() as int) =~= s@.subrange(from as int, from + prefix@.len()));
        }
    }
    r
}

/// The directory named by the local package version `v`, if it is one.
fn local_version_path(v: &str) -> (r: Option<String>)
    ensures
        match r {
            Some(p) => is_local_version(v@) && p@ == local_dep_path(v@),
            None => !is_local_version(v@),
        },
{
    let c = to_chars(v);
    let f = to_chars("file:");
    let l = to_chars("link:");
    let w = to_chars("workspace:");
    if starts_with_chars(c.as_slice(), f.as_slice()) || starts_with_chars(c.as_slice(), l.as_slice())
        || starts_with_chars(c.as_slice(), w.as_slice()) {
        proof {
            reveal_strlit("file:");
            reveal_strlit("link:");
            reveal_strlit("workspace:");
        }
        let a = strip_prefix_repeatedly(&c, "file:");
        let b = strip_prefix_repeatedly(&a, "link:");
        let d = strip_prefix_repeatedly(&b, "workspace:");
        Some(string_of(d.as_slice(), 0, d.len()))
    } else {
        None
    }
}

/// Some entry of `out` from index `from` on holds `path`.
pub open spec fn covers(out: Seq<String>, from: int, path: Seq<char>) -> bool {
    exists|t: int| from <= t < out.len() && (#[trigger] out[t])@ == path
}

/// A JSON value that is a local package version has its directory listed in
/// `out` from index `from` on.
pub open spec fn value_covered(v: JsonModel, out: Seq<String>, from: int) -> bool {
    match v {
        JsonModel::Str(w) => is_local_version(w) ==> covers(out, from, local_dep_path(w)),
        _ => true,
    }
}

proof fn lemma_covered_after_push(v: JsonModel, out: Seq<String>, from: int, x: String)
    requires
        value_covered(v, out, from),
        0 <= from <= out.len(),
    ensures
        value_covered(v, out.push(x), from),
{
    if let JsonModel::Str(w) = v {
        if is_local_version(w) {
            let t = choose|t: int| from <= t < out.len() && (#[trigger] out[t])@ == local_dep_path(w);
            assert(out.push(x)[t] == out[t]);
        }
    }
}

/// The local directories declared in one section of a parsed `package.json`,
/// appended to `out`.
#[verifier::rlimit(30)]
fn add_section_paths(out: &mut Vec<String>, doc: &serde_json::Value, section: &str)
    ensures
        forall|i: int| 0 <= i < old(out)@.len() ==> final(out)@[i] == old(out)@[i],
        old(out)@.len() <= final(out)@.len(),
        forall|i: int| old(out)@.len() <= i < final(out)@.len()
            ==> section_declares_local(Some(json_model(*doc)), section@, (#[trigger] final(out)@[i])@),
        forall|p: Seq<char>| section_declares_local(Some(json_model(*doc)), section@, p)
            ==> covers(final(out)@, old(out)@.len() as int, p),
{
    let ghost start = out@;
    let ghost n0 = start.len() as int;
    let deps = match json_get(doc, section) {
        Some(d) => d,
        None => { return; },
    };
    let vals = match json_object_values(deps) {
        Some(v) => v,
        None => { return; },
    };
    let ghost m = json_model(*deps)->Object_0;
    let ghost docm = Some(json_model(*doc));
    assert(member_of(docm, section@) == Some(JsonModel::Object(m)));
    let mut i: usize = 0;
    while i < vals.len()
        invariant
            i <= vals@.len(),
            n0 == start.len(),
            member_of(docm, section@) == Some(JsonModel::Object(m)),
            forall|j: int| 0 <= j < vals@.len() ==> exists|k: Seq<char>|
                m.contains_key(k) && m[k] == json_model(*#[trigger] vals@[j]),
            n0 <= out@.len(),
            forall|t: int| 0 <= t < n0 ==> out@[t] == start[t],
            forall|t: int| n0 <= t < out@.len() ==> section_declares_local(docm, section@, (#[trigger] out@[t])@),
            forall|j: int| 0 <= j < i ==> value_covered(json_model(*#[trigger] vals@[j]), out@, n0),
        decreases vals.len() - i,
    {
        let v = vals[i];
        let ghost key = choose|k: Seq<char>| m.contains_key(k) && m[k] == json_model(*v);
        assert(m.contains_key(key) && m[key] == json_model(*vals@[i as int]));
        if let Some(text) = json_as_str(v) {
            if let Some(p) = local_version_path(text) {
                let ghost before = out@;
                out.push(p);
                proof {
                    assert(section_declares_local(docm, section@, p@));
                    assert forall|j: int| 0 <= j < i implies value_covered(json_model(*#[trigger] vals@[j]), out@, n0) by {
                        lemma_covered_after_push(json_model(*vals@[j]), before, n0, p);
                    }
                    assert(out@[before.len() as int] == p);
                    assert(value_covered(json_model(*vals@[i as int]), out@, n0));
                }
            }
        }
        i = i + 1;
    }
    proof {
        assert forall|p: Seq<char>| section_declares_local(docm, section@, p) implies covers(out@, n0, p) by {
            let k = choose|k: Seq<char>|
                #[trigger] m.contains_key(k) && (m[k] matches JsonModel::Str(v) && is_local_version(v) && local_dep_path(v) == p);
            assert(exists|j: int| 0 <= j < vals@.len() && m[k] == json_model(*vals@[j]));
            let j = choose|j: int| 0 <= j < vals@.len() && m[k] == json_model(*vals@[j]);
            assert(value_covered(json_model(*vals@[j]), out@, n0));
        }
    }
}

/// The local directories that a parsed `package.json` declares as
/// dependencies or dev-dependencies (see `local_package_paths`): every one
/// declared is listed, and only those.
pub fn local_paths_of(doc: &serde_json::Value) -> (r: Vec<String>)
    ensures
        forall|i: int| 0 <= i < r@.len() ==> doc_declares_local_path(Some(json_model(*doc)), (#[trigger] r@[i])@),
        forall|p: Seq<char>| doc_declares_local_path(Some(json_model(*doc)), p) ==> exists|i: int| 0 <= i < r@.len() && (#[trigger] r@[i])@ == p,
{
    let mut out: Vec<String> = Vec::new();
    add_section_paths(&mut out, doc, "dependencies");
    let ghost mid = out@;
    add_section_paths(&mut out, doc, "devDependencies");
    proof {
        let d = Some(json_model(*doc));
        assert forall|p: Seq<char>| doc_declares_local_path(d, p) implies exists|i: int| 0 <= i < out@.len() && (#[trigger] out@[i])@ == p by {
            if section_declares_local(d, "dependencies"@, p) {
                let i = choose|i: int| 0 <= i < mid.len() && (#[trigger] mid[i])@ == p;
                assert(out@[i] == mid[i]);
            } else {
                let i = choose|i: int| mid.len() <= i < out@.len() && (#[trigger] out@[i])@ == p;
            }
        }
    }
    out
}

/// The local directories that a `package.json` text declares as dependencies
/// or dev-dependencies (`file:`, `link:` or `workspace:` versions, with those
/// markers taken off), relative to the package; none when the text is not
/// JSON. Every one declared is listed, and only those.
pub fn local_package_paths(content: &str) -> (r: Vec<String>)
    ensures
        forall|i: int| 0 <= i < r@.len() ==> declares_local_path(content@, (#[trigger] r@[i])@),
        forall|p: Seq<char>| declares_local_path(content@, p) ==> exists|i: int| 0 <= i < r@.len() && (#[trigger] r@[i])@ == p,
{
    match json_from_str(content) {
        Some(doc) => local_paths_of(&doc),
        None => Vec::new(),
    }
}

// ---------------------------------------------------------------------------
// Results
// ---------------------------------------------------------------------------

/// A build result failed: it is an error, or the build did not succeed.
pub open spec fn build_failed(r: Result<BuildResult, String>) -> bool {
    match r {
        Ok(b) => !b.success,
        Err(_) => true,
    }
}

/// A lint result failed: it is an error, or the linter did not succeed.
pub open spec fn lint_failed(r: Result<LintResult, String>) -> bool {
    match r {
        Ok(l) => !l.success,
        Err(_) => true,
    }
}

/// Whether some build failed.
pub fn has_failures(results: &Vec<(DetectedProject, Result<BuildResult, String>)>) -> (r: bool)
    ensures
        r == exists|k: int| 0 <= k < results@.len() && build_failed(#[trigger] results@[k].1),
{
    let mut k: usize = 0;
    while k < results.len()
        invariant
            k <= results@.len(),
            forall|j: int| 0 <= j < k ==> !build_failed(#[trigger] results@[j].1),
        decreases results.len() - k,
    {
        let failed = match &results[k].1 {
            Ok(b) => !b.success,
            Err(_) => true,
        };
        if failed {
            return true;
        }
        k = k + 1;
    }
    false
}

/// Whether some lint run failed.
pub fn has_lint_failures(results: &Vec<(DetectedProject, Result<LintResult, String>)>) -> (r: bool)
    ensures
        r == exists|k: int| 0 <= k < results@.len() && lint_failed(#[trigger] results@[k].1),
{
    let mut k: usize = 0;
    while k < results.len()
        invariant
            k <= results@.len(),
            forall|j: int| 0 <= j < k ==> !lint_failed(#[trigger] results@[j].1),
        decreases results.len() - k,
    {
        let failed = match &results[k].1 {
            Ok(l) => !l.success,
            Err(_) => true,
        };
        if failed {
            return true;
        }
        k = k + 1;
    }
    false
}

/// How many diagnostics of `ds` have severity `sev`.
pub open spec fn count_severity(ds: Seq<LintDiagnostic>, sev: Severity) -> nat
    decreases ds.len(),
{
    if ds.len() == 0 {
        0
    } else {
        count_severity(ds.drop_last(), sev) + if ds.last().severity == sev { 1nat } else { 0nat }
    }
}

proof fn lemma_count_at_most(ds: Seq<LintDiagnostic>, sev: Severity)
    ensures
        count_severity(ds, sev) <= ds.len(),
    decreases ds.len(),
{
    if ds.len() > 0 {
        lemma_count_at_most(ds.drop_last(), sev);
    }
}

proof fn lemma_two_counts_at_most(ds: Seq<LintDiagnostic>)
    ensures
        count_severity(ds, Severity::Error) + count_severity(ds, Severity::Warning) <= ds.len(),
    decreases ds.len(),
{
    if ds.len() > 0 {
        lemma_two_counts_at_most(ds.drop_last());
    }
}

/// How many diagnostics of `ds` have severity `sev`.
pub fn count_with_severity(ds: &Vec<LintDiagnostic>, sev: Severity) -> (r: usize)
    ensures
        r == count_severity(ds@, sev),
{
    let mut n: usize = 0;
    let mut i: usize = 0;
    while i < ds.len()
        invariant
            i <= ds@.len(),
            n == count_severity(ds@.take(i as int), sev),
        decreases ds.len() - i,
    {
        assert(ds@.take(i + 1).drop_last() =~= ds@.take(i as int));
        proof {
            lemma_count_at_most(ds@.take(i as int), sev);
        }
        if ds[i].severity == sev {
            n = n + 1;
        }
        i = i + 1;
    }
    assert(ds@.take(ds@.len() as int) =~= ds@);
    n
}

/// How a set of diagnostics is marked: clean when there are none, with errors
/// when one is an error, else with warnings.
#[derive(Clone, Copy, Debug, PartialEq, Eq, Structural)]
pub enum Mark {
    Clean,
    Warnings,
    Errors,
}

/// The mark of one project's lint result: clean without diagnostics, errors
/// when one of them is an error, warnings otherwise.
pub open spec fn spec_project_mark(ds: Seq<LintDiagnostic>) -> Mark {
    if ds.len() == 0 {
        Mark::Clean
    } else if count_severity(ds, Severity::Error) > 0 {
        Mark::Errors
    } else {
        Mark::Warnings
    }
}

proof fn lemma_count_positive(ds: Seq<LintDiagnostic>, sev: Severity)
    ensures
        count_severity(ds, sev) > 0 <==> exists|i: int| 0 <= i < ds.len() && (#[trigger] ds[i]).severity == sev,
    decreases ds.len(),
{
    if ds.len() > 0 {
        let before = ds.drop_last();
        lemma_count_positive(before, sev);
        if exists|i: int| 0 <= i < before.len() && (#[trigger] before[i]).severity == sev {
            let i = choose|i: int| 0 <= i < before.len() && (#[trigger] before[i]).severity == sev;
            assert(ds[i] == before[i]);
        }
        if exists|i: int| 0 <= i < ds.len() && (#[trigger] ds[i]).severity == sev {
            let i = choose|i: int| 0 <= i < ds.len() && (#[trigger] ds[i]).severity == sev;
            if i < before.len() {
                assert(before[i] == ds[i]);
            }
        }
    }
}

/// Law: a project's lint result is clean exactly when it has no
/// diagnostic, marked with errors exactly when one diagnostic is an error,
/// and marked with warnings when it has diagnostics and none is an error.
pub proof fn lemma_project_mark(ds: Seq<LintDiagnostic>)
    ensures
        (spec_project_mark(ds) == Mark::Clean) <==> ds.len() == 0,
        (spec_project_mark(ds) == Mark::Errors) <==> exists|i: int| 0 <= i < ds.len() && (#[trigger] ds[i]).severity == Severity::Error,
        (spec_project_mark(ds) == Mark::Warnings) <==> (ds.len() > 0
            && forall|i: int| 0 <= i < ds.len() ==> (#[trigger] ds[i]).severity != Severity::Error),
{
    lemma_count_positive(ds, Severity::Error);
}

/// The mark of one project's lint result (see `spec_project_mark`).
pub fn project_mark(ds: &Vec<LintDiagnostic>) -> (r: Mark)
    ensures
        r == spec_project_mark(ds@),
{
    if ds.len() == 0 {
        Mark::Clean
    } else if count_with_severity(ds, Severity::Error) > 0 {
        Mark::Errors
    } else {
        Mark::Warnings
    }
}

/// The counts that close a lint report.
#[derive(Clone, Copy, Debug, PartialEq, Eq, Structural)]
pub struct LintTally {
    pub total: usize,
    pub errors: usize,
    pub warnings: usize,
}

/// The number of diagnostics, of errors and of warnings over the lint results
/// that produced one.
pub open spec fn lint_counts(results: Seq<(DetectedProject, Result<LintResult, String>)>) -> (nat, nat, nat)
    decreases results.len(),
{
    if results.len() == 0 {
        (0, 0, 0)
    } else {
        let before = lint_counts(results.drop_last());
        match results.last().1 {
            Ok(l) => (
                before.0 + l.diagnostics@.len(),
                before.1 + count_severity(l.diagnostics@, Severity::Error),
                before.2 + count_severity(l.diagnostics@, Severity::Warning),
            ),
            Err(_) => before,
        }
    }
}

/// Law: a lint report never counts more errors and warnings together than
/// it counts diagnostics.
pub proof fn lemma_counts_bounded(results: Seq<(DetectedProject, Result<LintResult, String>)>)
    ensures
        lint_counts(results).1 + lint_counts(results).2 <= lint_counts(results).0,
    decreases results.len(),
{
    if results.len() > 0 {
        lemma_counts_bounded(results.drop_last());
        if let Ok(l) = results.last().1 {
            lemma_two_counts_at_most(l.diagnostics@);
        }
    }
}

proof fn lemma_counts_grow(results: Seq<(DetectedProject, Result<LintResult, String>)>, k: int)
    requires
        0 <= k <= results.len(),
    ensures
        lint_counts(results.take(k)).0 <= lint_counts(results).0,
    decreases results.len() - k,
{
    if k < results.len() {
        lemma_counts_grow(results, k + 1);
        assert(results.take(k + 1).drop_last() =~= results.take(k));
    } else {
        assert(results.take(k) =~= results);
    }
}

/// The counts that close a lint report: all diagnostics, errors and warnings
/// of the lint results that produced one. The number of diagnostics must fit
/// in a `usize`.
pub fn tally_lint(results: &Vec<(DetectedProject, Result<LintResult, String>)>) -> (r: LintTally)
    requires
        lint_counts(results@).0 <= usize::MAX,
    ensures
        (r.total as nat, r.errors as nat, r.warnings as nat) == lint_counts(results@),
{
    let mut t = LintTally { total: 0, errors: 0, warnings: 0 };
    let mut k: usize = 0;
    while k < results.len()
        invariant
            k <= results@.len(),
            lint_counts(results@).0 <= usize::MAX,
            (t.total as nat, t.errors as nat, t.warnings as nat) == lint_counts(results@.take(k as int)),
        decreases results.len() - k,
    {
        proof {
            assert(results@.take(k + 1).drop_last() =~= results@.take(k as int));
            lemma_counts_grow(results@, k + 1);
            lemma_counts_bounded(results@.take(k + 1));
        }
        match &results[k].1 {
            Ok(l) => {
                let e = count_with_severity(&l.diagnostics, Severity::Error);
                let w = count_with_severity(&l.diagnostics, Severity::Warning);
                t = LintTally {
                    total: t.total + l.diagnostics.len(),
                    errors: t.errors + e,
                    warnings: t.warnings + w,
                };
            },
            Err(_) => {},
        }
        k = k + 1;
    }
    assert(results@.take(results@.len() as int) =~= results@);
    t
}

/// The mark of a whole lint report: errors when there is one, else warnings
/// when there is one, else clean.
pub fn overall_mark(t: &LintTally) -> (r: Mark)
    ensures
        r == (if t.errors > 0 { Mark::Errors } else if t.warnings > 0 { Mark::Warnings } else { Mark::Clean }),
{
    if t.errors > 0 {
        Mark::Errors
    } else if t.warnings > 0 {
        Mark::Warnings
    } else {
        Mark::Clean
    }
}

/// The output lines shown under a failed build: when it reported no errors
/// and its output is not empty, the first ten lines of the output; else
/// none.
pub fn failure_excerpt(r: &BuildResult) -> (out: Vec<String>)
    ensures
        views(out@) == (if r.errors@.len() == 0 && r.output@.len() > 0 {
            lines(r.output@).take(if lines(r.output@).len() < 10 { lines(r.output@).len() as int } else { 10 })
        } else {
            seq![]
        }),
{
    if r.errors.len() == 0 && r.output.as_str().unicode_len() > 0 {
        let all = split_lines(r.output.as_str());
        let mut out: Vec<String> = Vec::new();
        let mut i: usize = 0;
        while i < all.len() && i < 10
            invariant
                i <= all@.len(),
                i <= 10,
                views(out@) == views(all@).take(i as int),
            decreases all.len() - i,
        {
            let ghost prev = out@;
            out.push(all[i].clone());
            assert(views(out@) =~= views(prev).push(all@[i as int]@));
            assert(views(all@).take(i + 1) =~= views(all@).take(i as int).push(all@[i as int]@));
            i = i + 1;
        }
        out
    } else {
        let out: Vec<String> = Vec::new();
        assert(views(out@) =~= seq![]);
        out
    }
}

/// The projects whose language has the name `name`, in order.
pub fn filter_by_language(projects: Vec<DetectedProject>, name: &str) -> (r: Vec<DetectedProject>)
    ensures
        r@ == projects@.filter(|p: DetectedProject| p.language.spec_name() == name@),
{
    let mut r: Vec<DetectedProject> = Vec::new();
    let mut i: usize = 0;
    while i < projects.len()
        invariant
            i <= projects@.len(),
            r@ == projects@.take(i as int).filter(|p: DetectedProject| p.language.spec_name() == name@),
        decreases projects.len() - i,
    {
        let p = &projects[i];
        proof {
            reveal(Seq::filter);
            assert(projects@.take(i + 1).drop_last() =~= projects@.take(i as int));
        }
        if crate::text::str_eq(p.language.as_str(), name) {
            r.push(p.clone());
        }
        i = i + 1;
    }
    assert(projects@.take(projects@.len() as int) =~= projects@);
    r
}

/// `path` names `dir` itself or something inside it, comparing whole
/// `'/'`-separated components: `a/bc` is not under `a/b`. Both are taken as
/// written, without repeated separators or `.` components.
pub open spec fn is_at_or_under(path: Seq<char>, dir: Seq<char>) -> bool {
    ||| path == dir
    ||| starts_with(path, dir) && (dir.len() == 0 || dir.last() == '/' || (dir.len() < path.len() && path[dir.len() as int] == '/'))
}

/// Whether `path` is `dir` or lies under it.
pub fn at_or_under(path: &str, dir: &str) -> (r: bool)
    ensures
        r == is_at_or_under(path@, dir@),
{
    let p = to_chars(path);
    let d = to_chars(dir);
    if p.len() == d.len() && starts_with_chars(p.as_slice(), d.as_slice()) {
        assert(p@.take(d@.len() as int) =~= p@);
        return true;
    }
    if !starts_with_chars(p.as_slice(), d.as_slice()) {
        assert(p@ != d@) by {
            assert(p@.take(p@.len() as int) =~= p@);
        }
        return false;
    }
    if d.len() == 0 || d[d.len() - 1] == '/' {
        return true;
    }
    d.len() < p.len() && p[d.len()] == '/'
}

/// The projects whose directory is `dir` or lies under it, in their order.
pub fn filter_under(projects: Vec<DetectedProject>, dir: &str) -> (r: Vec<DetectedProject>)
    ensures
        r@ == projects@.filter(|p: DetectedProject| is_at_or_under(p.path@, dir@)),
{
    let mut r: Vec<DetectedProject> = Vec::new();
    let mut i: usize = 0;
    while i < projects.len()
        invariant
            i <= projects@.len(),
            r@ == projects@.take(i as int).filter(|p: DetectedProject| is_at_or_under(p.path@, dir@)),
        decreases projects.len() - i,
    {
        let p = &projects[i];
        proof {
            reveal(Seq::filter);
            assert(projects@.take(i + 1).drop_last() =~= projects@.take(i as int));
        }
        if at_or_under(p.path.as_str(), dir) {
            r.push(p.clone());
        }
        i = i + 1;
    }
    assert(projects@.take(projects@.len() as int) =~= projects@);
    r
}

/// Each diagnostic of `ds` paired with the project directory `path`.
pub open spec fn tagged(path: Seq<char>, ds: Seq<LintDiagnostic>) -> Seq<(Seq<char>, DiagnosticView)> {
    ds.map_values(|d: LintDiagnostic| (path, d@))
}

/// The errors of the successful build results, in order, each with its
/// project's directory.
pub open spec fn build_diagnostics(results: Seq<(DetectedProject, Result<BuildResult, String>)>) -> Seq<(Seq<char>, DiagnosticView)>
    decreases results.len(),
{
    if results.len() == 0 {
        seq![]
    } else {
        build_diagnostics(results.drop_last()) + match results.last().1 {
            Ok(b) => tagged(results.last().0.path@, b.errors@),
            Err(_) => seq![],
        }
    }
}

/// The diagnostics of the successful lint results, in order, each with its
/// project's directory.
pub open spec fn lint_diagnostics(results: Seq<(DetectedProject, Result<LintResult, String>)>) -> Seq<(Seq<char>, DiagnosticView)>
    decreases results.len(),
{
    if results.len() == 0 {
        seq![]
    } else {
        lint_diagnostics(results.drop_last()) + match results.last().1 {
            Ok(l) => tagged(results.last().0.path@, l.diagnostics@),
            Err(_) => seq![],
        }
    }
}

/// The views of project-tagged diagnostics.
pub open spec fn tagged_views(v: Seq<(String, LintDiagnostic)>) -> Seq<(Seq<char>, DiagnosticView)> {
    v.map_values(|p: (String, LintDiagnostic)| (p.0@, p.1@))
}

fn append_tagged(all: &mut Vec<(String, LintDiagnostic)>, path: &String, ds: &Vec<LintDiagnostic>)
    ensures
        tagged_views(final(all)@) == tagged_views(old(all)@) + tagged(path@, ds@),
{
    let ghost start = tagged_views(all@);
    let mut i: usize = 0;
    while i < ds.len()
        invariant
            i <= ds@.len(),
            tagged_views(all@) == start + tagged(path@, ds@).take(i as int),
        decreases ds.len() - i,
    {
        let item = (path.clone(), ds[i].clone());
        let ghost prev = all@;
        all.push(item);
        assert(tagged_views(all@) =~= tagged_views(prev).push((path@, ds@[i as int]@)));
        assert(tagged(path@, ds@).take(i + 1) =~= tagged(path@, ds@).take(i as int).push((path@, ds@[i as int]@)));
        i = i + 1;
    }
    assert(tagged(path@, ds@).take(ds@.len() as int) =~= tagged(path@, ds@));
}

/// Every error of the builds and every diagnostic of the lint runs that
/// produced a result, each with its project's directory: the build errors
/// first, then the lint diagnostics, each in the order of the results.
pub fn collect_all_diagnostics(
    build_results: &Vec<(DetectedProject, Result<BuildResult, String>)>,
    lint_results: &Vec<(DetectedProject, Result<LintResult, String>)>,
) -> (r: Vec<(String, LintDiagnostic)>)
    ensures
        tagged_views(r@) == build_diagnostics(build_results@) + lint_diagnostics(lint_results@),
{
    let mut all: Vec<(String, LintDiagnostic)> = Vec::new();
    let mut k: usize = 0;
    assert(tagged_views(all@) =~= seq![]);
    while k < build_results.len()
        invariant
            k <= build_results@.len(),
            tagged_views(all@) == build_diagnostics(build_results@.take(k as int)),
        decreases build_results.len() - k,
    {
        assert(build_results@.take(k + 1).drop_last() =~= build_results@.take(k as int));
        match &build_results[k].1 {
            Ok(b) => {
                append_tagged(&mut all, &build_results[k].0.path, &b.errors);
            },
            Err(_) => {
                assert(tagged_views(all@) + seq![] =~= tagged_views(all@));
            },
        }
        k = k + 1;
    }
    assert(build_results@.take(build_results@.len() as int) =~= build_results@);
    let ghost built = tagged_views(all@);
    let mut k: usize = 0;
    assert(built + lint_diagnostics(lint_results@.take(0)) =~= built);
    while k < lint_results.len()
        invariant
            k <= lint_results@.len(),
            tagged_views(all@) == built + lint_diagnostics(lint_results@.take(k as int)),
        decreases lint_results.len() - k,
    {
        assert(lint_results@.take(k + 1).drop_last() =~= lint_results@.take(k as int));
        match &lint_results[k].1 {
            Ok(l) => {
                append_tagged(&mut all, &lint_results[k].0.path, &l.diagnostics);
            },
            Err(_) => {
                assert(tagged_views(all@) + seq![] =~= tagged_views(all@));
            },
        }
        k = k + 1;
    }
    assert(lint_results@.take(lint_results@.len() as int) =~= lint_results@);
    all
}

} // verus!
