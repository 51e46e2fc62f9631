use vstd::prelude::*;
use crate::table::{table_get, table_vars, Entry};
use crate::var::{children, Value, Var, VarPtr};
use crate::vm::heap::{live, object, table_of, Heap};
use crate::vm::runtime::{heap_wf, value_wf, Vm};

pub use crate::vm::heap::Mark;

verus! {

/// The objects `v` holds on to, as the collector sees them; nothing for a freed slot.
pub open spec fn kids(h: Seq<Option<VarPtr>>, v: Var) -> Seq<Var> {
    if live(h, v) { children(object(h, v)) } else { Seq::empty() }
}

/// `p` is a chain of objects, each held on to by the one before.
pub open spec fn is_path(h: Seq<Option<VarPtr>>, p: Seq<Var>) -> bool {
    &&& p.len() > 0
    &&& forall|k: int| 0 <= k < p.len() - 1 ==> #[trigger] kids(h, p[k]).contains(p[k + 1])
}

/// `x` can be reached from one of `starts` by following what objects hold on to.
pub open spec fn reachable(h: Seq<Option<VarPtr>>, starts: Seq<Var>, x: Var) -> bool {
    exists|p: Seq<Var>| #[trigger] is_path(h, p) && starts.contains(p[0]) && p.last() == x
}

/// Every object reachable from `starts` is live.
pub open spec fn reach_live(h: Seq<Option<VarPtr>>, starts: Seq<Var>) -> bool {
    forall|x: Var| reachable(h, starts, x) ==> live(h, x)
}

/// No object carries the mark `Marked`.
pub open spec fn no_marked(h: Seq<Option<VarPtr>>) -> bool {
    forall|i: int| 0 <= i < h.len() && #[trigger] h[i] is Some ==> h[i]->Some_0.mark != Mark::Marked
}

/// `b` has the same objects as `a`, in the same slots; only marks may differ.
pub open spec fn same_objects(a: Seq<Option<VarPtr>>, b: Seq<Option<VarPtr>>) -> bool {
    &&& a.len() == b.len()
    &&& forall|i: int| 0 <= i < a.len() ==> (#[trigger] a[i] is Some <==> b[i] is Some)
    &&& forall|i: int| 0 <= i < a.len() && #[trigger] a[i] is Some ==> a[i]->Some_0.value == b[i]->Some_0.value
}

/// The number of live objects not marked `Marked`.
pub open spec fn count_unmarked(h: Seq<Option<VarPtr>>) -> nat
    decreases h.len(),
{
    if h.len() == 0 {
        0
    } else {
        count_unmarked(h.drop_last()) + if h.last() is Some && h.last()->Some_0.mark != Mark::Marked { 1nat } else { 0nat }
    }
}

proof fn lemma_count_mark(h: Seq<Option<VarPtr>>, i: int, p: VarPtr)
    requires
        0 <= i < h.len(),
        h[i] is Some,
        h[i]->Some_0.mark != Mark::Marked,
        p.mark == Mark::Marked,
    ensures
        count_unmarked(h.update(i, Some(p))) + 1 == count_unmarked(h),
    decreases h.len(),
{
    let g = h.update(i, Some(p));
    if i == h.len() - 1 {
        assert(g.drop_last() =~= h.drop_last());
    } else {
        assert(g.drop_last() =~= h.drop_last().update(i, Some(p)));
        lemma_count_mark(h.drop_last(), i, p);
    }
}

/// The objects an object holds on to.
pub fn child_vars(v: &Value) -> (res: Vec<Var>)
    ensures
        res@ == children(*v),
{
    match v {
        Value::Ctx(c) => entry_vars(&c.vars),
        Value::Module(m) => entry_vars(&m.exports),
        Value::Array(a) => copy_vars(&a.inner),
        Value::List(l) => copy_vars(&l.data),
        _ => Vec::new(),
    }
}

fn copy_vars(v: &Vec<Var>) -> (res: Vec<Var>)
    ensures
        res@ == v@,
{
    let mut out: Vec<Var> = Vec::new();
    let mut i: usize = 0;
    while i < v.len()
        invariant
            i <= v@.len(),
            out@ == v@.subrange(0, i as int),
        decreases v@.len() - i,
    {
        out.push(v[i]);
        i = i + 1;
        proof { assert(out@ =~= v@.subrange(0, i as int)); }
    }
    proof { assert(v@.subrange(0, v@.len() as int) =~= v@); }
    out
}

fn entry_vars(t: &Vec<Entry>) -> (res: Vec<Var>)
    ensures
        res@ == table_vars(t@),
{
    let mut out: Vec<Var> = Vec::new();
    let mut i: usize = 0;
    while i < t.len()
        invariant
            i <= t@.len(),
            out@ == table_vars(t@.subrange(0, i as int)),
        decreases t@.len() - i,
    {
        out.push(t[i].var);
        i = i + 1;
        proof { assert(out@ =~= table_vars(t@.subrange(0, i as int))); }
    }
    proof { assert(t@.subrange(0, t@.len() as int) =~= t@); }
    out
}

/// The object `v` is live and marked `Marked`.
pub open spec fn marked(h: Seq<Option<VarPtr>>, v: Var) -> bool {
    live(h, v) && h[v.ptr as int]->Some_0.mark == Mark::Marked
}

/// Every marked object is reachable from `starts`, and every other object keeps its mark.
pub open spec fn marks_sound(h0: Seq<Option<VarPtr>>, h: Seq<Option<VarPtr>>, starts: Seq<Var>) -> bool {
    &&& forall|v: Var| #[trigger] marked(h, v) ==> reachable(h0, starts, v)
    &&& forall|v: Var| live(h, v) && !marked(h, v) ==> #[trigger] h[v.ptr as int]->Some_0.mark == h0[v.ptr as int]->Some_0.mark
}

proof fn lemma_start_reachable(h: Seq<Option<VarPtr>>, starts: Seq<Var>, j: int)
    requires
        0 <= j < starts.len(),
    ensures
        reachable(h, starts, starts[j]),
{
    let p = seq![starts[j]];
    assert(is_path(h, p));
    assert(starts.contains(p[0]));
}

proof fn lemma_extend_reachable(h: Seq<Option<VarPtr>>, starts: Seq<Var>, x: Var, k: Var)
    requires
        reachable(h, starts, x),
        kids(h, x).contains(k),
    ensures
        reachable(h, starts, k),
{
    let p = choose|p: Seq<Var>| #[trigger] is_path(h, p) && starts.contains(p[0]) && p.last() == x;
    let q = p.push(k);
    assert forall|i: int| 0 <= i < q.len() - 1 implies #[trigger] kids(h, q[i]).contains(q[i + 1]) by {
        if i < p.len() - 1 {
            assert(q[i] == p[i] && q[i + 1] == p[i + 1]);
        }
    }
    assert(is_path(h, q));
    assert(q[0] == p[0]);
}

/// When every start is marked and every marked object's children are marked, everything
/// reachable is marked.
proof fn lemma_closed_complete(h0: Seq<Option<VarPtr>>, h: Seq<Option<VarPtr>>, starts: Seq<Var>, x: Var)
    requires
        same_objects(h0, h),
        reach_live(h0, starts),
        forall|k: int| 0 <= k < starts.len() ==> marked(h, #[trigger] starts[k]),
        forall|v: Var| #[trigger] marked(h, v) ==> (forall|j: int| 0 <= j < kids(h0, v).len() ==> marked(h, #[trigger] kids(h0, v)[j])),
        reachable(h0, starts, x),
    ensures
        marked(h, x),
{
    let p = choose|p: Seq<Var>| #[trigger] is_path(h0, p) && starts.contains(p[0]) && p.last() == x;
    lemma_path_marked(h0, h, starts, p, p.len() - 1);
}

proof fn lemma_path_marked(h0: Seq<Option<VarPtr>>, h: Seq<Option<VarPtr>>, starts: Seq<Var>, p: Seq<Var>, k: int)
    requires
        is_path(h0, p),
        starts.contains(p[0]),
        0 <= k < p.len(),
        forall|k: int| 0 <= k < starts.len() ==> marked(h, #[trigger] starts[k]),
        forall|v: Var| #[trigger] marked(h, v) ==> (forall|j: int| 0 <= j < kids(h0, v).len() ==> marked(h, #[trigger] kids(h0, v)[j])),
    ensures
        marked(h, p[k]),
    decreases k,
{
    if k == 0 {
        let i = choose|i: int| 0 <= i < starts.len() && starts[i] == p[0];
        assert(marked(h, starts[i]));
    } else {
        lemma_path_marked(h0, h, starts, p, k - 1);
        let i = k - 1;
        assert(kids(h0, p[i]).contains(p[i + 1]));
        let ks = kids(h0, p[k - 1]);
        let j = choose|j: int| 0 <= j < ks.len() && #[trigger] ks[j] == p[k];
        assert(marked(h, ks[j]));
    }
}

proof fn lemma_live_same(h0: Seq<Option<VarPtr>>, h: Seq<Option<VarPtr>>, v: Var)
    requires
        same_objects(h0, h),
        live(h0, v),
    ensures
        live(h, v),
        object(h, v) == object(h0, v),
        kids(h, v) == kids(h0, v),
{
    assert(h0[v.ptr as int] is Some);
}

/// Marks `Marked` every object reachable from `starts`, leaving every other mark as it was.
pub fn mark_from(heap: &mut Heap, starts: &Vec<Var>)
    requires
        no_marked(old(heap)@),
        reach_live(old(heap)@, starts@),
    ensures
        same_objects(old(heap)@, final(heap)@),
        forall|v: Var| live(old(heap)@, v) ==> #[trigger] final(heap)@[v.ptr as int]->Some_0.mark
            == if reachable(old(heap)@, starts@, v) { Mark::Marked } else { old(heap)@[v.ptr as int]->Some_0.mark },
{
    let ghost h0 = heap@;
    let mut work: Vec<Var> = Vec::new();
    let mut j: usize = 0;
    while j < starts.len()
        invariant
            h0 == old(heap)@,
            no_marked(h0),
            reach_live(h0, starts@),
            j <= starts@.len(),
            same_objects(h0, heap@),
            marks_sound(h0, heap@, starts@),
            forall|k: int| 0 <= k < work@.len() ==> marked(heap@, #[trigger] work@[k]),
            forall|v: Var| #[trigger] marked(heap@, v) ==> work@.contains(v),
            forall|k: int| 0 <= k < j ==> marked(heap@, #[trigger] starts@[k]),
        decreases starts@.len() - j,
    {
        let s = starts[j];
        proof { lemma_start_reachable(h0, starts@, j as int); lemma_live_same(h0, heap@, s); }
        if heap.get_mark(s) != Mark::Marked {
            let ghost hb = heap@;
            let ghost wb = work@;
            heap.set_mark(s, Mark::Marked);
            work.push(s);
            proof {
                assert forall|v: Var| #[trigger] marked(heap@, v) implies work@.contains(v) by {
                    if v.ptr != s.ptr {
                        assert(marked(hb, v));
                        assert(wb.contains(v));
                        let i = choose|i: int| 0 <= i < wb.len() && wb[i] == v;
                        assert(work@[i] == v);
                    } else {
                        assert(v == s);
                        assert(work@[work@.len() - 1] == s);
                    }
                }
                assert forall|k: int| 0 <= k < work@.len() implies marked(heap@, #[trigger] work@[k]) by {
                    if k < work@.len() - 1 { assert(marked(hb, work@[k])); }
                }
            }
        }
        j = j + 1;
    }
    while work.len() > 0
        invariant
            h0 == old(heap)@,
            no_marked(h0),
            reach_live(h0, starts@),
            same_objects(h0, heap@),
            marks_sound(h0, heap@, starts@),
            forall|k: int| 0 <= k < work@.len() ==> marked(heap@, #[trigger] work@[k]),
            forall|v: Var| #[trigger] marked(heap@, v) && !work@.contains(v)
                ==> (forall|i: int| 0 <= i < kids(h0, v).len() ==> marked(heap@, #[trigger] kids(h0, v)[i])),
            forall|k: int| 0 <= k < starts@.len() ==> marked(heap@, #[trigger] starts@[k]),
        decreases count_unmarked(heap@), work@.len(),
    {
        let ghost c0 = count_unmarked(heap@);
        let ghost w0 = work@.len();
        let ghost wfull = work@;
        let x = work.pop().unwrap();
        let ghost wpop = work@;
        proof {
            assert(wfull =~= wpop.push(x));
            assert forall|v: Var| #[trigger] marked(heap@, v) && !work@.contains(v) && v != x
                implies (forall|i: int| 0 <= i < kids(h0, v).len() ==> marked(heap@, #[trigger] kids(h0, v)[i])) by {
                if wfull.contains(v) {
                    let i = choose|i: int| 0 <= i < wfull.len() && wfull[i] == v;
                    if i < wpop.len() { assert(wpop[i] == v); }
                }
            }
        }
        proof { assert(marked(heap@, x)); }
        let ks = child_vars(heap.value(x));
        proof { assert(ks@ == kids(h0, x)); }
        let mut t: usize = 0;
        while t < ks.len()
            invariant
                h0 == old(heap)@,
                no_marked(h0),
                reach_live(h0, starts@),
                same_objects(h0, heap@),
                marks_sound(h0, heap@, starts@),
                ks@ == kids(h0, x),
                marked(heap@, x),
                t <= ks@.len(),
                forall|k: int| 0 <= k < work@.len() ==> marked(heap@, #[trigger] work@[k]),
                forall|v: Var| #[trigger] marked(heap@, v) && !work@.contains(v) && v != x
                    ==> (forall|i: int| 0 <= i < kids(h0, v).len() ==> marked(heap@, #[trigger] kids(h0, v)[i])),
                forall|k: int| 0 <= k < t ==> marked(heap@, #[trigger] ks@[k]),
                forall|k: int| 0 <= k < starts@.len() ==> marked(heap@, #[trigger] starts@[k]),
                (count_unmarked(heap@) == c0 && work@.len() == w0 - 1) || count_unmarked(heap@) < c0,
            decreases ks@.len() - t,
        {
            let k = ks[t];
            proof {
                assert(ks@[t as int] == k);
                assert(kids(h0, x).contains(k));
                lemma_extend_reachable(h0, starts@, x, k);
                lemma_live_same(h0, heap@, k);
            }
            if heap.get_mark(k) != Mark::Marked {
                let ghost hb = heap@;
                let ghost wb = work@;
                heap.set_mark(k, Mark::Marked);
                work.push(k);
                proof {
                    lemma_count_mark(hb, k.ptr as int, VarPtr { mark: Mark::Marked, value: object(hb, k) });
                    assert forall|v: Var| #[trigger] marked(heap@, v) && !work@.contains(v) && v != x
                        implies (forall|i: int| 0 <= i < kids(h0, v).len() ==> marked(heap@, #[trigger] kids(h0, v)[i])) by {
                        if v.ptr == k.ptr {
                            assert(v == k);
                            assert(work@[work@.len() - 1] == k);
                        } else {
                            assert(marked(hb, v));
                            if wb.contains(v) {
                                let i = choose|i: int| 0 <= i < wb.len() && wb[i] == v;
                                assert(work@[i] == v);
                            }
                            assert forall|i: int| 0 <= i < kids(h0, v).len() implies marked(heap@, #[trigger] kids(h0, v)[i]) by {
                                assert(marked(hb, kids(h0, v)[i]));
                            }
                        }
                    }
                    assert forall|m: int| 0 <= m < work@.len() implies marked(heap@, #[trigger] work@[m]) by {
                        if m < work@.len() - 1 { assert(marked(hb, work@[m])); }
                    }
                    assert forall|m: int| 0 <= m <= t implies marked(heap@, #[trigger] ks@[m]) by {
                        if m < t { assert(marked(hb, ks@[m])); }
                    }
                    assert forall|m: int| 0 <= m < starts@.len() implies marked(heap@, #[trigger] starts@[m]) by {
                        assert(marked(hb, starts@[m]));
                    }
                    assert(marked(heap@, x)) by { assert(marked(hb, x)); }
                }
            }
            t = t + 1;
        }
        proof {
            assert forall|v: Var| #[trigger] marked(heap@, v) && !work@.contains(v)
                implies (forall|i: int| 0 <= i < kids(h0, v).len() ==> marked(heap@, #[trigger] kids(h0, v)[i])) by {
                if v == x {
                    assert forall|i: int| 0 <= i < kids(h0, v).len() implies marked(heap@, #[trigger] kids(h0, v)[i]) by {
                        assert(marked(heap@, ks@[i]));
                    }
                }
            }
        }
    }
    proof {
        assert forall|v: Var| live(old(heap)@, v) implies #[trigger] heap@[v.ptr as int]->Some_0.mark
            == if reachable(old(heap)@, starts@, v) { Mark::Marked } else { old(heap)@[v.ptr as int]->Some_0.mark } by {
            if reachable(h0, starts@, v) {
                lemma_closed_complete(h0, heap@, starts@, v);
            } else {
                assert(!marked(heap@, v));
            }
        }
    }
}

/// The number of `false` entries.
pub open spec fn count_false(s: Seq<bool>) -> nat
    decreases s.len(),
{
    if s.len() == 0 { 0 } else { count_false(s.drop_last()) + if !s.last() { 1nat } else { 0nat } }
}

proof fn lemma_count_false_set(s: Seq<bool>, i: int)
    requires
        0 <= i < s.len(),
        !s[i],
    ensures
        count_false(s.update(i, true)) + 1 == count_false(s),
    decreases s.len(),
{
    let g = s.update(i, true);
    if i == s.len() - 1 {
        assert(g.drop_last() =~= s.drop_last());
    } else {
        assert(g.drop_last() =~= s.drop_last().update(i, true));
        lemma_count_false_set(s.drop_last(), i);
    }
}

/// `v` has been seen in the walk recorded by `seen`.
pub open spec fn seen_at(seen: Seq<bool>, v: Var) -> bool {
    v.ptr < seen.len() && seen[v.ptr as int]
}

proof fn lemma_seen_path(h: Seq<Option<VarPtr>>, seen: Seq<bool>, starts: Seq<Var>, p: Seq<Var>, k: int)
    requires
        is_path(h, p),
        starts.contains(p[0]),
        0 <= k < p.len(),
        forall|j: int| 0 <= j < starts.len() ==> seen_at(seen, #[trigger] starts[j]),
        forall|v: Var| #[trigger] seen_at(seen, v) ==> (forall|j: int| 0 <= j < kids(h, v).len() ==> seen_at(seen, #[trigger] kids(h, v)[j])),
    ensures
        seen_at(seen, p[k]),
    decreases k,
{
    if k == 0 {
        let i = choose|i: int| 0 <= i < starts.len() && starts[i] == p[0];
        assert(seen_at(seen, starts[i]));
    } else {
        lemma_seen_path(h, seen, starts, p, k - 1);
        let i = k - 1;
        assert(kids(h, p[i]).contains(p[i + 1]));
        let ks = kids(h, p[i]);
        let j = choose|j: int| 0 <= j < ks.len() && #[trigger] ks[j] == p[k];
        assert(seen_at(seen, ks[j]));
    }
}

/// Whether everything reachable from `starts` is live, found by walking what the objects
/// hold on to. `true` only where it is.
pub fn reach_all_live(heap: &Heap, starts: &Vec<Var>) -> (res: bool)
    ensures
        res == reach_live(heap@, starts@),
{
    let ghost h = heap@;
    let n = heap.slots.len();
    let mut seen: Vec<bool> = Vec::new();
    let mut z: usize = 0;
    while z < n
        invariant
            z <= n,
            n == h.len(),
            seen@.len() == z,
            forall|k: int| 0 <= k < z ==> !seen@[k],
        decreases n - z,
    {
        seen.push(false);
        z = z + 1;
    }
    let mut work: Vec<Var> = Vec::new();
    let mut j: usize = 0;
    while j < starts.len()
        invariant
            h == heap@,
            n == h.len(),
            seen@.len() == n,
            j <= starts@.len(),
            forall|v: Var| #[trigger] seen_at(seen@, v) ==> live(h, v),
            forall|v: Var| #[trigger] seen_at(seen@, v) ==> reachable(h, starts@, v),
            forall|v: Var| #[trigger] seen_at(seen@, v) ==> work@.contains(v),
            forall|k: int| 0 <= k < work@.len() ==> seen_at(seen@, #[trigger] work@[k]),
            forall|k: int| 0 <= k < j ==> seen_at(seen@, #[trigger] starts@[k]),
        decreases starts@.len() - j,
    {
        let s = starts[j];
        proof { lemma_start_reachable(h, starts@, j as int); }
        if !heap.is_live(s) {
            return false;
        }
        if !seen[s.ptr] {
            let ghost sb = seen@;
            let ghost wb = work@;
            seen.set(s.ptr, true);
            work.push(s);
            proof {
                assert forall|v: Var| #[trigger] seen_at(seen@, v) implies work@.contains(v) by {
                    if v.ptr != s.ptr {
                        assert(seen_at(sb, v));
                        let i = choose|i: int| 0 <= i < wb.len() && wb[i] == v;
                        assert(work@[i] == v);
                    } else {
                        assert(v == s);
                        assert(work@[work@.len() - 1] == s);
                    }
                }
                assert forall|v: Var| #[trigger] seen_at(seen@, v) implies live(h, v) by {
                    if v.ptr != s.ptr { assert(seen_at(sb, v)); } else { assert(v == s); }
                }
                assert forall|v: Var| #[trigger] seen_at(seen@, v) implies reachable(h, starts@, v) by {
                    if v.ptr != s.ptr { assert(seen_at(sb, v)); } else { assert(v == s); }
                }
                assert forall|k: int| 0 <= k < work@.len() implies seen_at(seen@, #[trigger] work@[k]) by {
                    if k < work@.len() - 1 { assert(seen_at(sb, work@[k])); }
                }
                assert forall|k: int| 0 <= k <= j implies seen_at(seen@, #[trigger] starts@[k]) by {
                    if k < j { assert(seen_at(sb, starts@[k])); }
                }
            }
        }
        j = j + 1;
    }
    while work.len() > 0
        invariant
            h == heap@,
            n == h.len(),
            seen@.len() == n,
            forall|v: Var| #[trigger] seen_at(seen@, v) ==> live(h, v),
            forall|v: Var| #[trigger] seen_at(seen@, v) ==> reachable(h, starts@, v),
            forall|k: int| 0 <= k < work@.len() ==> seen_at(seen@, #[trigger] work@[k]),
            forall|v: Var| #[trigger] seen_at(seen@, v) && !work@.contains(v)
                ==> (forall|i: int| 0 <= i < kids(h, v).len() ==> seen_at(seen@, #[trigger] kids(h, v)[i])),
            forall|k: int| 0 <= k < starts@.len() ==> seen_at(seen@, #[trigger] starts@[k]),
        decreases count_false(seen@), work@.len(),
    {
        let ghost c0 = count_false(seen@);
        let ghost w0 = work@.len();
        let ghost wfull = work@;
        let x = work.pop().unwrap();
        let ghost wpop = work@;
        proof {
            assert(wfull =~= wpop.push(x));
            assert(seen_at(seen@, x));
            assert forall|v: Var| #[trigger] seen_at(seen@, v) && !work@.contains(v) && v != x
                implies (forall|i: int| 0 <= i < kids(h, v).len() ==> seen_at(seen@, #[trigger] kids(h, v)[i])) by {
                if wfull.contains(v) {
                    let i = choose|i: int| 0 <= i < wfull.len() && wfull[i] == v;
                    if i < wpop.len() { assert(wpop[i] == v); }
                }
            }
        }
        let ks = child_vars(heap.value(x));
        let mut t: usize = 0;
        while t < ks.len()
            invariant
                h == heap@,
                n == h.len(),
                seen@.len() == n,
                ks@ == kids(h, x),
                seen_at(seen@, x),
                t <= ks@.len(),
                forall|v: Var| #[trigger] seen_at(seen@, v) ==> live(h, v),
            forall|v: Var| #[trigger] seen_at(seen@, v) ==> reachable(h, starts@, v),
                forall|k: int| 0 <= k < work@.len() ==> seen_at(seen@, #[trigger] work@[k]),
                forall|v: Var| #[trigger] seen_at(seen@, v) && !work@.contains(v) && v != x
                    ==> (forall|i: int| 0 <= i < kids(h, v).len() ==> seen_at(seen@, #[trigger] kids(h, v)[i])),
                forall|k: int| 0 <= k < t ==> seen_at(seen@, #[trigger] ks@[k]),
                forall|k: int| 0 <= k < starts@.len() ==> seen_at(seen@, #[trigger] starts@[k]),
                (count_false(seen@) == c0 && work@.len() == w0 - 1) || count_false(seen@) < c0,
            decreases ks@.len() - t,
        {
            let k = ks[t];
            proof {
                assert(ks@[t as int] == k);
                assert(kids(h, x).contains(k));
                lemma_extend_reachable(h, starts@, x, k);
            }
            if !heap.is_live(k) {
                return false;
            }
            if !seen[k.ptr] {
                let ghost sb = seen@;
                let ghost wb = work@;
                seen.set(k.ptr, true);
                work.push(k);
                proof {
                    lemma_count_false_set(sb, k.ptr as int);
                    assert forall|v: Var| #[trigger] seen_at(seen@, v) && !work@.contains(v) && v != x
                        implies (forall|i: int| 0 <= i < kids(h, v).len() ==> seen_at(seen@, #[trigger] kids(h, v)[i])) by {
                        if v.ptr == k.ptr {
                            assert(v == k);
                            assert(work@[work@.len() - 1] == k);
                        } else {
                            assert(seen_at(sb, v));
                            if wb.contains(v) {
                                let i = choose|i: int| 0 <= i < wb.len() && wb[i] == v;
                                assert(work@[i] == v);
                            }
                            assert forall|i: int| 0 <= i < kids(h, v).len() implies seen_at(seen@, #[trigger] kids(h, v)[i]) by {
                                assert(seen_at(sb, kids(h, v)[i]));
                            }
                        }
                    }
                    assert forall|v: Var| #[trigger] seen_at(seen@, v) implies live(h, v) by {
                        if v.ptr != k.ptr { assert(seen_at(sb, v)); } else { assert(v == k); }
                    }
                    assert forall|v: Var| #[trigger] seen_at(seen@, v) implies reachable(h, starts@, v) by {
                        if v.ptr != k.ptr { assert(seen_at(sb, v)); } else { assert(v == k); }
                    }
                    assert forall|m: int| 0 <= m < work@.len() implies seen_at(seen@, #[trigger] work@[m]) by {
                        if m < work@.len() - 1 { assert(seen_at(sb, work@[m])); }
                    }
                    assert forall|m: int| 0 <= m <= t implies seen_at(seen@, #[trigger] ks@[m]) by {
                        if m < t { assert(seen_at(sb, ks@[m])); }
                    }
                    assert forall|m: int| 0 <= m < starts@.len() implies seen_at(seen@, #[trigger] starts@[m]) by {
                        assert(seen_at(sb, starts@[m]));
                    }
                    assert(seen_at(seen@, x)) by { assert(seen_at(sb, x)); }
                }
            }
            t = t + 1;
        }
        proof {
            assert forall|v: Var| #[trigger] seen_at(seen@, v) && !work@.contains(v)
                implies (forall|i: int| 0 <= i < kids(h, v).len() ==> seen_at(seen@, #[trigger] kids(h, v)[i])) by {
                if v == x {
                    assert forall|i: int| 0 <= i < kids(h, v).len() implies seen_at(seen@, #[trigger] kids(h, v)[i]) by {
                        assert(seen_at(seen@, ks@[i]));
                    }
                }
            }
        }
    }
    proof {
        assert forall|x: Var| reachable(h, starts@, x) implies live(h, x) by {
            let p = choose|p: Seq<Var>| #[trigger] is_path(h, p) && starts@.contains(p[0]) && p.last() == x;
            lemma_seen_path(h, seen@, starts@, p, p.len() - 1);
        }
    }
    true
}

/// Frees every object marked `Unmarked` and marks every other object `Unmarked`.
pub fn sweep(heap: &mut Heap)
    ensures
        final(heap)@.len() == old(heap)@.len(),
        forall|i: int| 0 <= i < old(heap)@.len() ==> (#[trigger] final(heap)@[i] is Some <==>
            (old(heap)@[i] is Some && old(heap)@[i]->Some_0.mark != Mark::Unmarked)),
        forall|i: int| 0 <= i < old(heap)@.len() && #[trigger] final(heap)@[i] is Some ==>
            final(heap)@[i]->Some_0.value == old(heap)@[i]->Some_0.value && final(heap)@[i]->Some_0.mark == Mark::Unmarked,
{
    let n = heap.slots.len();
    let mut i: usize = 0;
    while i < n
        invariant
            n == old(heap)@.len(),
            heap@.len() == n,
            i <= n,
            forall|k: int| i <= k < n ==> heap@[k] == old(heap)@[k],
            forall|k: int| 0 <= k < i ==> (#[trigger] heap@[k] is Some <==>
                (old(heap)@[k] is Some && old(heap)@[k]->Some_0.mark != Mark::Unmarked)),
            forall|k: int| 0 <= k < i && #[trigger] heap@[k] is Some ==>
                heap@[k]->Some_0.value == old(heap)@[k]->Some_0.value && heap@[k]->Some_0.mark == Mark::Unmarked,
        decreases n - i,
    {
        let slot = heap.slots[i].take();
        match slot {
            Some(mut p) => {
                if p.mark == Mark::Unmarked {
                    heap.slots.set(i, None);
                } else {
                    p.mark = Mark::Unmarked;
                    heap.slots.set(i, Some(p));
                }
            },
            None => {
                heap.slots.set(i, None);
            },
        }
        i = i + 1;
    }
}

/// What one mark-and-sweep cycle from `root` does to the heap `h0`, giving `h1`: the objects
/// that survive are those reachable from what `root` holds on to and those that were `New`;
/// they keep their contents and are marked `Unmarked`; the others are freed.
pub open spec fn swept(h0: Seq<Option<VarPtr>>, h1: Seq<Option<VarPtr>>, root: Var) -> bool {
    &&& h1.len() == h0.len()
    &&& forall|i: int| 0 <= i < h0.len() ==> (#[trigger] h1[i] is Some <==> (h0[i] is Some
        && (reachable(h0, kids(h0, root), Var { ptr: i as usize }) || h0[i]->Some_0.mark == Mark::New)))
    &&& forall|i: int| 0 <= i < h0.len() && #[trigger] h1[i] is Some ==>
        h1[i]->Some_0.value == h0[i]->Some_0.value && h1[i]->Some_0.mark == Mark::Unmarked
}

/// One mark-and-sweep cycle: marks what `root` reaches, then sweeps.
pub fn ms(vm: &mut Vm, root: Var)
    requires
        live(old(vm).heap@, root),
        no_marked(old(vm).heap@),
        reach_live(old(vm).heap@, kids(old(vm).heap@, root)),
    ensures
        swept(old(vm).heap@, final(vm).heap@, root),
        final(vm).same_roots(old(vm)),
{
    let starts = child_vars(vm.heap.value(root));
    let n = vm.heap.slots.len();
    let ghost h0 = vm.heap@;
    mark_from(&mut vm.heap, &starts);
    let ghost hm = vm.heap@;
    sweep(&mut vm.heap);
    proof {
        assert forall|i: int| 0 <= i < h0.len() implies (#[trigger] vm.heap@[i] is Some <==> (h0[i] is Some
            && (reachable(h0, kids(h0, root), Var { ptr: i as usize }) || h0[i]->Some_0.mark == Mark::New))) by {
            let v = Var { ptr: i as usize };
            assert(v.ptr == i);
            if h0[i] is Some {
                assert(live(h0, v));
                assert(hm[i] is Some);
            } else {
                assert(hm[i] is None);
            }
        }
        assert forall|i: int| 0 <= i < h0.len() && #[trigger] vm.heap@[i] is Some implies
            vm.heap@[i]->Some_0.value == h0[i]->Some_0.value && vm.heap@[i]->Some_0.mark == Mark::Unmarked by {
            assert(hm[i] is Some);
        }
    }
}

/// One collection round from the root scope `root`: the root is kept by marking it `New`,
/// then a mark-and-sweep cycle runs.
pub fn collect(vm: &mut Vm, root: Var)
    requires
        live(old(vm).heap@, root),
        no_marked(old(vm).heap@),
        reach_live(old(vm).heap@, kids(old(vm).heap@, root)),
    ensures
        swept(old(vm).heap@.update(root.ptr as int, Some(VarPtr { mark: Mark::New, value: object(old(vm).heap@, root) })),
            final(vm).heap@, root),
        final(vm).same_roots(old(vm)),
        live(final(vm).heap@, root),
        no_marked(final(vm).heap@),
        reach_live(final(vm).heap@, kids(final(vm).heap@, root)),
        heap_wf(old(vm).heap@) ==> heap_wf(final(vm).heap@),
{
    let ghost h0 = vm.heap@;
    vm.heap.set_mark(root, Mark::New);
    let ghost h1 = vm.heap@;
    proof {
        assert(same_objects(h0, h1));
        lemma_kids_same(h0, h1);
        assert forall|i: int| 0 <= i < h1.len() && #[trigger] h1[i] is Some implies h1[i]->Some_0.mark != Mark::Marked by {
            if i != root.ptr { assert(h0[i] is Some); }
        }
        lemma_reach_same(h0, h1, kids(h0, root));
        assert(kids(h0, root) == kids(h1, root));
        assert forall|x: Var| reachable(h1, kids(h1, root), x) implies live(h1, x) by {
            assert(reachable(h0, kids(h0, root), x));
            assert(live(h0, x));
        }
    }
    ms(vm, root);
    proof {
        lemma_swept_keeps(h1, vm.heap@, root);
        assert(vm.heap@[root.ptr as int] is Some);
        if heap_wf(h0) {
            assert forall|i: int| 0 <= i < vm.heap@.len() && #[trigger] vm.heap@[i] is Some implies value_wf(vm.heap@[i]->Some_0.value) by {
                assert(h1[i] is Some);
                assert(h0[i] is Some);
            }
        }
    }
}

/// The root made `New`, as a collection round does before its cycle.
pub open spec fn rooted(h: Seq<Option<VarPtr>>, root: Var) -> Seq<Option<VarPtr>> {
    h.update(root.ptr as int, Some(VarPtr { mark: Mark::New, value: object(h, root) }))
}

/// Two collection rounds in a row leave exactly the root and the objects it reached before
/// the first round: everything else, new objects included, is freed.
pub proof fn law_two_rounds(h0: Seq<Option<VarPtr>>, h1: Seq<Option<VarPtr>>, h2: Seq<Option<VarPtr>>, root: Var)
    requires
        h0.len() <= usize::MAX,
        live(h0, root),
        no_marked(h0),
        reach_live(h0, kids(h0, root)),
        swept(rooted(h0, root), h1, root),
        swept(rooted(h1, root), h2, root),
    ensures
        h2.len() == h0.len(),
        forall|i: int| 0 <= i < h0.len() ==> (#[trigger] h2[i] is Some <==>
            (i == root.ptr || reachable(h0, kids(h0, root), Var { ptr: i as usize }))),
{
    let g0 = rooted(h0, root);
    assert(same_objects(h0, g0));
    lemma_reach_same(h0, g0, kids(h0, root));
    lemma_kids_same(h0, g0);
    assert(kids(g0, root) == kids(h0, root));
    assert forall|x: Var| reachable(g0, kids(g0, root), x) implies live(g0, x) by {
        assert(reachable(h0, kids(h0, root), x));
        assert(live(h0, x));
    }
    lemma_swept_keeps(g0, h1, root);
    let g1 = rooted(h1, root);
    assert(same_objects(h1, g1));
    lemma_reach_same(h1, g1, kids(h1, root));
    lemma_kids_same(h1, g1);
    assert(kids(g1, root) == kids(h1, root));
    assert forall|i: int| 0 <= i < h0.len() implies (#[trigger] h2[i] is Some <==>
        (i == root.ptr || reachable(h0, kids(h0, root), Var { ptr: i as usize }))) by {
        let v = Var { ptr: i as usize };
        assert(v.ptr == i);
        assert(h0.len() == h1.len());
        if i != root.ptr {
            assert(g1[i] == h1[i]);
            if h1[i] is Some {
                assert(h1[i]->Some_0.mark == Mark::Unmarked);
            }
            if reachable(h0, kids(h0, root), v) {
                assert(reachable(g0, kids(g0, root), v));
                assert(reachable(h1, kids(h1, root), v));
                assert(live(h1, v));
                assert(reachable(g1, kids(g1, root), v));
            }
            if h2[i] is Some {
                assert(g1[i] is Some);
                assert(reachable(g1, kids(g1, root), v));
                assert(reachable(h1, kids(h1, root), v));
                assert(reachable(g0, kids(g0, root), v));
            }
        }
    }
}

/// Heaps holding the same objects have the same references.
proof fn lemma_kids_same(a: Seq<Option<VarPtr>>, b: Seq<Option<VarPtr>>)
    requires
        same_objects(a, b),
    ensures
        forall|v: Var| #[trigger] kids(a, v) == kids(b, v),
{
    assert forall|v: Var| #[trigger] kids(a, v) == kids(b, v) by {
        if v.ptr < a.len() {
            assert(a[v.ptr as int] is Some <==> b[v.ptr as int] is Some);
        }
    }
}

/// Heaps holding the same objects reach the same objects.
proof fn lemma_reach_same(a: Seq<Option<VarPtr>>, b: Seq<Option<VarPtr>>, starts: Seq<Var>)
    requires
        same_objects(a, b),
    ensures
        forall|x: Var| #[trigger] reachable(a, starts, x) == reachable(b, starts, x),
        forall|x: Var| #[trigger] live(a, x) == live(b, x),
{
    lemma_kids_same(a, b);
    assert forall|x: Var| #[trigger] reachable(a, starts, x) == reachable(b, starts, x) by {
        if reachable(a, starts, x) {
            let p = choose|p: Seq<Var>| #[trigger] is_path(a, p) && starts.contains(p[0]) && p.last() == x;
            assert forall|k: int| 0 <= k < p.len() - 1 implies #[trigger] kids(b, p[k]).contains(p[k + 1]) by {
                assert(kids(a, p[k]) == kids(b, p[k]));
            }
            assert(is_path(b, p));
        }
        if reachable(b, starts, x) {
            let p = choose|p: Seq<Var>| #[trigger] is_path(b, p) && starts.contains(p[0]) && p.last() == x;
            assert forall|k: int| 0 <= k < p.len() - 1 implies #[trigger] kids(a, p[k]).contains(p[k + 1]) by {
                assert(kids(a, p[k]) == kids(b, p[k]));
            }
            assert(is_path(a, p));
        }
    }
    assert forall|x: Var| #[trigger] live(a, x) == live(b, x) by {
        if x.ptr < a.len() { assert(a[x.ptr as int] is Some <==> b[x.ptr as int] is Some); }
    }
}

/// After a cycle, the objects the root reaches are the ones it reached before; all of them
/// are live, and none is marked `Marked`.
proof fn lemma_swept_keeps(h0: Seq<Option<VarPtr>>, h1: Seq<Option<VarPtr>>, root: Var)
    requires
        swept(h0, h1, root),
        live(h0, root),
        h0[root.ptr as int]->Some_0.mark == Mark::New,
        reach_live(h0, kids(h0, root)),
    ensures
        live(h1, root),
        kids(h1, root) == kids(h0, root),
        no_marked(h1),
        forall|x: Var| #[trigger] reachable(h1, kids(h1, root), x) == reachable(h0, kids(h0, root), x),
        reach_live(h1, kids(h1, root)),
{
    assert(h1[root.ptr as int] is Some);
    let s = kids(h0, root);
    assert forall|x: Var| #[trigger] reachable(h1, s, x) == reachable(h0, s, x) by {
        if reachable(h1, s, x) {
            let p = choose|p: Seq<Var>| #[trigger] is_path(h1, p) && s.contains(p[0]) && p.last() == x;
            assert forall|k: int| 0 <= k < p.len() - 1 implies #[trigger] kids(h0, p[k]).contains(p[k + 1]) by {
                assert(kids(h1, p[k]).contains(p[k + 1]));
                assert(live(h1, p[k]));
                assert(h1[p[k].ptr as int] is Some);
            }
            assert(is_path(h0, p));
        }
        if reachable(h0, s, x) {
            let p = choose|p: Seq<Var>| #[trigger] is_path(h0, p) && s.contains(p[0]) && p.last() == x;
            assert forall|k: int| 0 <= k < p.len() - 1 implies #[trigger] kids(h1, p[k]).contains(p[k + 1]) by {
                assert(kids(h0, p[k]).contains(p[k + 1]));
                lemma_prefix_reachable(h0, s, p, k);
                assert(live(h0, p[k]));
                assert(h1[p[k].ptr as int] is Some);
            }
            assert(is_path(h1, p));
        }
    }
    assert forall|x: Var| reachable(h1, kids(h1, root), x) implies live(h1, x) by {
        assert(reachable(h0, s, x));
        assert(live(h0, x));
        assert(h1[x.ptr as int] is Some);
    }
}

/// Every object on a path from a start is reachable from the starts.
proof fn lemma_prefix_reachable(h: Seq<Option<VarPtr>>, starts: Seq<Var>, p: Seq<Var>, k: int)
    requires
        is_path(h, p),
        starts.contains(p[0]),
        0 <= k < p.len(),
    ensures
        reachable(h, starts, p[k]),
{
    let q = p.subrange(0, k + 1);
    assert forall|i: int| 0 <= i < q.len() - 1 implies #[trigger] kids(h, q[i]).contains(q[i + 1]) by {
        assert(q[i] == p[i] && q[i + 1] == p[i + 1]);
    }
    assert(is_path(h, q));
    assert(q[0] == p[0]);
    assert(q.last() == p[k]);
}


proof fn lemma_table_get_in_vars(t: Seq<crate::table::Entry>, name: Seq<char>)
    requires
        table_get(t, name) is Some,
    ensures
        table_vars(t).contains(table_get(t, name)->Some_0),
    decreases t.len(),
{
    if t.last().key@ == name {
        assert(table_vars(t)[t.len() - 1] == t.last().var);
    } else {
        lemma_table_get_in_vars(t.drop_last(), name);
        let x = table_get(t, name)->Some_0;
        let i = choose|i: int| 0 <= i < table_vars(t.drop_last()).len() && table_vars(t.drop_last())[i] == x;
        assert(table_vars(t)[i] == x);
    }
}

/// A collection round keeps every object a module reachable from the root exports: the
/// collector follows a module's exports as it follows a scope's bindings.
pub proof fn law_module_exports_kept(h0: Seq<Option<VarPtr>>, h1: Seq<Option<VarPtr>>, root: Var, m: Var, name: Seq<char>)
    requires
        live(h0, root),
        live(h0, m),
        reachable(h0, kids(h0, root), m),
        object(h0, m) matches Value::Module(md) && table_get(md.exports@, name) is Some,
        live(h0, table_get(table_of(object(h0, m)), name)->Some_0),
        swept(rooted(h0, root), h1, root),
    ensures
        live(h1, m),
        live(h1, table_get(table_of(object(h0, m)), name)->Some_0),
        object(h1, m) == object(h0, m),
{
    let g0 = rooted(h0, root);
    let x = table_get(table_of(object(h0, m)), name)->Some_0;
    lemma_table_get_in_vars(table_of(object(h0, m)), name);
    assert(kids(h0, m).contains(x));
    lemma_extend_reachable(h0, kids(h0, root), m, x);
    assert(same_objects(h0, g0));
    lemma_reach_same(h0, g0, kids(h0, root));
    lemma_kids_same(h0, g0);
    assert(kids(g0, root) == kids(h0, root));
    assert(reachable(g0, kids(g0, root), m));
    assert(reachable(g0, kids(g0, root), x));
    let vm_ = Var { ptr: m.ptr };
    let vx = Var { ptr: x.ptr };
    assert(vm_ == m && vx == x);
    assert(h1[m.ptr as int] is Some);
    assert(h1[x.ptr as int] is Some);
    assert(g0[m.ptr as int] is Some);
}

impl Heap {
    /// The mark of the object `v`.
    pub fn get_mark(&self, v: Var) -> (res: Mark)
        requires
            live(self@, v),
        ensures
            res == self@[v.ptr as int]->Some_0.mark,
    {
        match &self.slots[v.ptr] {
            Some(p) => p.mark,
            None => Mark::New,
        }
    }

    /// Sets the mark of the object `v`.
    pub fn set_mark(&mut self, v: Var, mark: Mark)
        requires
            live(old(self)@, v),
        ensures
            final(self)@ == old(self)@.update(v.ptr as int, Some(VarPtr { mark, value: object(old(self)@, v) })),
    {
        let slot = self.slots[v.ptr].take();
        match slot {
            Some(mut p) => {
                p.mark = mark;
                self.slots.set(v.ptr, Some(p));
            },
            None => {},
        }
    }
}

} // verus!
