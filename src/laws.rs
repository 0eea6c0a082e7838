//! What a whole traversal produces, stated against a store that answers
//! every request, and proved of the step-by-step machine.
use vstd::prelude::*;
use crate::walker::{
    child_count, child_tasks, drain, has_more, next_request, start, step, capped, EntryModel,
    PageModel, TaskModel, WalkState,
};

verus! {

/// A store: the answer it gives to a request for a prefix and a
/// continuation token, `None` when the request fails.
pub type Store = spec_fn(Seq<char>, Option<Seq<char>>) -> Option<PageModel>;

/// Runs the machine for at most `n` requests, each answered by `serve`.
pub open spec fn run(serve: Store, st: WalkState, n: nat) -> WalkState
    decreases n,
{
    if n == 0 {
        st
    } else {
        match next_request(st) {
            Some((p, t)) => run(serve, step(st, serve(p, t)), (n - 1) as nat),
            None => st,
        }
    }
}

/// What walking part of the tree adds: objects, finished prefixes and
/// failed prefixes in order, the requests counted, and the requests made.
pub struct WalkOutput {
    pub objects: Seq<EntryModel>,
    pub prefixes: Seq<Seq<char>>,
    pub failed: Seq<Seq<char>>,
    pub requests: nat,
    pub steps: nat,
}

/// Nothing found and no request made.
pub open spec fn no_output() -> WalkOutput {
    WalkOutput {
        objects: Seq::empty(),
        prefixes: Seq::empty(),
        failed: Seq::empty(),
        requests: 0,
        steps: 0,
    }
}

/// One output followed by another.
pub open spec fn join(a: WalkOutput, b: WalkOutput) -> WalkOutput {
    WalkOutput {
        objects: a.objects + b.objects,
        prefixes: a.prefixes + b.prefixes,
        failed: a.failed + b.failed,
        requests: a.requests + b.requests,
        steps: a.steps + b.steps,
    }
}

/// A state with an output added to what it has found.
pub open spec fn extend(st: WalkState, o: WalkOutput) -> WalkState {
    WalkState {
        objects: st.objects + o.objects,
        prefixes: st.prefixes + o.prefixes,
        failed: st.failed + o.failed,
        request_count: capped(st.request_count + o.requests),
        tasks: st.tasks,
    }
}

/// Walking `prefix` from the page that `token` asks for, depth first: the
/// page's objects, then each sub-prefix walked and recorded in turn, then
/// the following pages. A failed request ends that prefix. `None` when the
/// tree is deeper or the listing longer than `fuel`.
pub open spec fn walk(serve: Store, prefix: Seq<char>, token: Option<Seq<char>>, fuel: nat) -> Option<
    WalkOutput,
>
    decreases fuel, 0nat, 0nat,
{
    if fuel == 0 {
        None
    } else {
        match serve(prefix, token) {
            None => Some(WalkOutput { failed: seq![prefix], steps: 1, ..no_output() }),
            Some(page) => {
                let first = WalkOutput {
                    objects: page.objects,
                    requests: child_count(page.common_prefixes),
                    steps: 1,
                    ..no_output()
                };
                match walk_children(serve, page.common_prefixes, (fuel - 1) as nat) {
                    None => None,
                    Some(co) => if has_more(token, page.next_token) {
                        match walk(serve, prefix, page.next_token, (fuel - 1) as nat) {
                            None => None,
                            Some(no) => Some(join(join(first, co), no)),
                        }
                    } else {
                        Some(join(first, co))
                    },
                }
            },
        }
    }
}

/// Walking each sub-prefix of a page in order, each recorded once its
/// subtree is done; one without text is passed over.
pub open spec fn walk_children(serve: Store, cs: Seq<Option<Seq<char>>>, fuel: nat) -> Option<
    WalkOutput,
>
    decreases fuel, 1nat, cs.len(),
{
    if cs.len() == 0 {
        Some(no_output())
    } else {
        match cs[0] {
            None => walk_children(serve, cs.drop_first(), fuel),
            Some(c) => match walk(serve, c, None, fuel) {
                None => None,
                Some(w) => match walk_children(serve, cs.drop_first(), fuel) {
                    None => None,
                    Some(r) => Some(
                        join(join(w, WalkOutput { prefixes: seq![c], ..no_output() }), r),
                    ),
                },
            },
        }
    }
}

proof fn lemma_run_add(serve: Store, st: WalkState, m: nat, n: nat)
    ensures
        run(serve, st, m + n) == run(serve, run(serve, st, m), n),
    decreases m,
{
    if m > 0 {
        match next_request(st) {
            Some((p, t)) => {
                lemma_run_add(serve, step(st, serve(p, t)), (m - 1) as nat, n);
                assert((m + n - 1) as nat == (m - 1) as nat + n);
            },
            None => {
                if n > 0 {
                    assert(run(serve, st, n) == st);
                }
            },
        }
    }
}

proof fn lemma_extend_join(st: WalkState, a: WalkOutput, b: WalkOutput)
    requires
        st.request_count <= u64::MAX,
    ensures
        extend(extend(st, a), b) == extend(st, join(a, b)),
{
    assert(st.objects + a.objects + b.objects =~= st.objects + (a.objects + b.objects));
    assert(st.prefixes + a.prefixes + b.prefixes =~= st.prefixes + (a.prefixes + b.prefixes));
    assert(st.failed + a.failed + b.failed =~= st.failed + (a.failed + b.failed));
}

proof fn lemma_walk_runs(
    serve: Store,
    st: WalkState,
    rest: Seq<TaskModel>,
    prefix: Seq<char>,
    token: Option<Seq<char>>,
    fuel: nat,
)
    requires
        st.tasks == rest.push(TaskModel::List { prefix, token }),
        st.request_count <= u64::MAX,
        walk(serve, prefix, token, fuel) is Some,
    ensures
        run(serve, st, walk(serve, prefix, token, fuel)->Some_0.steps) == drain(
            extend(WalkState { tasks: rest, ..st }, walk(serve, prefix, token, fuel)->Some_0),
        ),
    decreases fuel, 0nat, 0nat,
{
    let out = walk(serve, prefix, token, fuel)->Some_0;
    let base = WalkState { tasks: rest, ..st };
    assert(st.tasks.drop_last() =~= rest);
    assert(next_request(st) == Some((prefix, token)));
    lemma_run_add(serve, st, 1, (out.steps - 1) as nat);
    assert(run(serve, st, 1) == step(st, serve(prefix, token))) by {
        assert(run(serve, step(st, serve(prefix, token)), 0) == step(st, serve(prefix, token)));
    }
    match serve(prefix, token) {
        None => {
            assert(base.objects + out.objects =~= base.objects);
            assert(base.prefixes + out.prefixes =~= base.prefixes);
            assert(base.failed + out.failed =~= st.failed.push(prefix));
            assert(extend(base, out) == WalkState { failed: st.failed.push(prefix), tasks: rest, ..st });
        },
        Some(page) => {
            let cs = page.common_prefixes;
            let first = WalkOutput {
                objects: page.objects,
                requests: child_count(cs),
                steps: 1,
                ..no_output()
            };
            let co = walk_children(serve, cs, (fuel - 1) as nat)->Some_0;
            let after = if has_more(token, page.next_token) {
                rest.push(TaskModel::List { prefix, token: page.next_token })
            } else {
                rest
            };
            let s1 = WalkState {
                objects: st.objects + page.objects,
                tasks: after + child_tasks(cs),
                request_count: capped(st.request_count + child_count(cs)),
                ..st
            };
            assert(step(st, Some(page)) == drain(s1));
            lemma_children_run(serve, s1, after, cs, (fuel - 1) as nat);
            let u = extend(WalkState { tasks: after, ..s1 }, co);
            assert(WalkState { tasks: after, ..s1 } == extend(WalkState { tasks: after, ..st }, first)) by {
                assert(st.prefixes + first.prefixes =~= st.prefixes);
                assert(st.failed + first.failed =~= st.failed);
            }
            lemma_extend_join(WalkState { tasks: after, ..st }, first, co);
            if has_more(token, page.next_token) {
                let no = walk(serve, prefix, page.next_token, (fuel - 1) as nat)->Some_0;
                assert(u.tasks.last() is List);
                assert(drain(u) == u);
                lemma_run_add(serve, drain(s1), co.steps, no.steps);
                lemma_walk_runs(serve, u, rest, prefix, page.next_token, (fuel - 1) as nat);
                lemma_extend_join(base, join(first, co), no);
                assert(WalkState { tasks: rest, ..u } == extend(base, join(first, co)));
                assert(out.steps == 1 + co.steps + no.steps);
            } else {
                assert(extend(WalkState { tasks: after, ..st }, join(first, co)) == extend(base, out));
            }
        },
    }
}

proof fn lemma_children_run(
    serve: Store,
    st: WalkState,
    base: Seq<TaskModel>,
    cs: Seq<Option<Seq<char>>>,
    fuel: nat,
)
    requires
        st.tasks == base + child_tasks(cs),
        st.request_count <= u64::MAX,
        walk_children(serve, cs, fuel) is Some,
    ensures
        run(serve, drain(st), walk_children(serve, cs, fuel)->Some_0.steps) == drain(
            extend(WalkState { tasks: base, ..st }, walk_children(serve, cs, fuel)->Some_0),
        ),
    decreases fuel, 1nat, cs.len(),
{
    let out = walk_children(serve, cs, fuel)->Some_0;
    let b = WalkState { tasks: base, ..st };
    if cs.len() == 0 {
        assert(st.tasks =~= base);
        assert(b.objects + out.objects =~= b.objects);
        assert(b.prefixes + out.prefixes =~= b.prefixes);
        assert(b.failed + out.failed =~= b.failed);
        assert(extend(b, out) == st);
    } else {
        let tail = cs.drop_first();
        match cs[0] {
            None => {
                assert(child_tasks(cs) =~= child_tasks(tail));
                lemma_children_run(serve, st, base, tail, fuel);
            },
            Some(c) => {
                let w = walk(serve, c, None, fuel)->Some_0;
                let r = walk_children(serve, tail, fuel)->Some_0;
                let rec = WalkOutput { prefixes: seq![c], ..no_output() };
                let rest = base + child_tasks(tail) + seq![TaskModel::Record { prefix: c }];
                assert(st.tasks =~= rest.push(TaskModel::List { prefix: c, token: None }));
                assert(drain(st) == st);
                lemma_walk_runs(serve, st, rest, c, None, fuel);
                let y = extend(WalkState { tasks: rest, ..st }, w);
                let z0 = WalkState { tasks: base + child_tasks(tail), ..st };
                let z = extend(z0, join(w, rec));
                lemma_extend_join(z0, w, rec);
                assert(y.tasks.drop_last() =~= base + child_tasks(tail));
                assert(extend(extend(z0, w), rec) == WalkState {
                    prefixes: y.prefixes.push(c),
                    tasks: y.tasks.drop_last(),
                    ..y
                }) by {
                    assert(extend(z0, w).prefixes + rec.prefixes =~= y.prefixes.push(c));
                    assert(extend(z0, w).objects + rec.objects =~= y.objects);
                    assert(extend(z0, w).failed + rec.failed =~= y.failed);
                }
                assert(drain(y) == drain(z));
                lemma_children_run(serve, z, base, tail, fuel);
                lemma_run_add(serve, st, w.steps, r.steps);
                lemma_extend_join(b, join(w, rec), r);
                assert(WalkState { tasks: base, ..z } == extend(b, join(w, rec)));
            },
        }
    }
}

/// Run against any store, a traversal begun at `root` makes exactly the
/// requests of the depth-first walk of the tree that the store describes,
/// and ends with nothing left to do, having found the walk's objects, its
/// prefixes, each recorded once, and its failures, after what `st` held.
pub proof fn lemma_traversal_complete(serve: Store, st: WalkState, root: Seq<char>, fuel: nat)
    requires
        st.tasks.len() == 0,
        st.request_count <= u64::MAX,
        walk(serve, root, None, fuel) is Some,
    ensures
        ({
            let out = walk(serve, root, None, fuel)->Some_0;
            let fin = run(serve, start(st, root), out.steps);
            &&& fin.tasks.len() == 0
            &&& next_request(fin) is None
            &&& fin.objects == st.objects + out.objects
            &&& fin.prefixes == st.prefixes + out.prefixes
            &&& fin.failed == st.failed + out.failed
            &&& fin.request_count == capped(st.request_count + 1 + out.requests)
        }),
{
    let out = walk(serve, root, None, fuel)->Some_0;
    let s0 = start(st, root);
    assert(s0.tasks =~= Seq::<TaskModel>::empty().push(TaskModel::List { prefix: root, token: None }));
    lemma_walk_runs(serve, s0, Seq::empty(), root, None, fuel);
    let e = extend(WalkState { tasks: Seq::empty(), ..s0 }, out);
    assert(drain(e) == e);
}

/// Every prefix the walk discovers is requested once and recorded once:
/// the requests it counts are as many as the prefixes it records. A store
/// that answers every request leaves no failure.
pub proof fn lemma_walk_counts(serve: Store, prefix: Seq<char>, token: Option<Seq<char>>, fuel: nat)
    requires
        walk(serve, prefix, token, fuel) is Some,
    ensures
        walk(serve, prefix, token, fuel)->Some_0.requests == walk(
            serve,
            prefix,
            token,
            fuel,
        )->Some_0.prefixes.len(),
        (forall|p: Seq<char>, t: Option<Seq<char>>| (#[trigger] serve(p, t)) is Some)
            ==> walk(serve, prefix, token, fuel)->Some_0.failed.len() == 0,
    decreases fuel, 0nat, 0nat,
{
    match serve(prefix, token) {
        None => {},
        Some(page) => {
            lemma_children_counts(serve, page.common_prefixes, (fuel - 1) as nat);
            if has_more(token, page.next_token) {
                lemma_walk_counts(serve, prefix, page.next_token, (fuel - 1) as nat);
            }
        },
    }
}

/// The sub-prefixes of one page: each one with text is counted and
/// recorded once, besides what walking it counts and records.
pub proof fn lemma_children_counts(serve: Store, cs: Seq<Option<Seq<char>>>, fuel: nat)
    requires
        walk_children(serve, cs, fuel) is Some,
    ensures
        walk_children(serve, cs, fuel)->Some_0.requests + child_count(cs)
            == walk_children(serve, cs, fuel)->Some_0.prefixes.len(),
        (forall|p: Seq<char>, t: Option<Seq<char>>| (#[trigger] serve(p, t)) is Some)
            ==> walk_children(serve, cs, fuel)->Some_0.failed.len() == 0,
    decreases fuel, 1nat, cs.len(),
{
    if cs.len() > 0 {
        let tail = cs.drop_first();
        lemma_children_counts(serve, tail, fuel);
        if let Some(c) = cs[0] {
            lemma_walk_counts(serve, c, None, fuel);
        }
    }
}

proof fn lemma_drain_pops_records(st: WalkState)
    ensures
        drain(st).tasks.len() <= st.tasks.len(),
        forall|i: int| 0 <= i < drain(st).tasks.len() ==> drain(st).tasks[i] == st.tasks[i],
        forall|i: int| drain(st).tasks.len() <= i < st.tasks.len() ==> (#[trigger] st.tasks[i]) is Record,
        drain(st).objects == st.objects,
        drain(st).failed == st.failed,
        drain(st).request_count == st.request_count,
    decreases st.tasks.len(),
{
    if st.tasks.len() > 0 {
        if let TaskModel::Record { prefix } = st.tasks.last() {
            let next = WalkState {
                prefixes: st.prefixes.push(prefix),
                tasks: st.tasks.drop_last(),
                ..st
            };
            lemma_drain_pops_records(next);
            assert forall|i: int| 0 <= i < drain(st).tasks.len() implies drain(st).tasks[i]
                == st.tasks[i] by {
                assert(next.tasks[i] == st.tasks[i]);
            }
            assert forall|i: int| drain(st).tasks.len() <= i < st.tasks.len() implies (
            #[trigger] st.tasks[i]) is Record by {
                if i < st.tasks.len() - 1 {
                    assert(next.tasks[i] == st.tasks[i]);
                }
            }
        }
    }
}

/// A failed request ends only the listing of its own prefix: the objects
/// found stay, the prefix is noted as failed, and every other request that
/// was waiting, such as a sibling's, is still to be made.
pub proof fn lemma_failure_keeps_going(st: WalkState)
    requires
        next_request(st) is Some,
    ensures
        step(st, None).objects == st.objects,
        step(st, None).failed == st.failed.push(next_request(st)->Some_0.0),
        step(st, None).request_count == st.request_count,
        forall|i: int|
            0 <= i < st.tasks.len() - 1 && (#[trigger] st.tasks[i]) is List ==> i < step(
                st,
                None,
            ).tasks.len() && step(st, None).tasks[i] == st.tasks[i],
{
    let p = next_request(st)->Some_0.0;
    let mid = WalkState { failed: st.failed.push(p), tasks: st.tasks.drop_last(), ..st };
    lemma_drain_pops_records(mid);
    assert(step(st, None) == drain(mid));
    assert forall|i: int|
        0 <= i < st.tasks.len() - 1 && (#[trigger] st.tasks[i]) is List implies i < step(
            st,
            None,
        ).tasks.len() && step(st, None).tasks[i] == st.tasks[i] by {
        assert(mid.tasks[i] == st.tasks[i]);
    }
}

} // verus!
