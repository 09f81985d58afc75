use vstd::prelude::*;

verus! {

/// One operation that was handed to the layer below, and whether it went through.
pub struct Step<Op> {
    pub op: Op,
    pub ok: bool,
}

/// The operations of a run, without their outcomes.
pub open spec fn ops_of<Op>(steps: Seq<Step<Op>>) -> Seq<Op> {
    Seq::new(steps.len(), |i: int| steps[i].op)
}

/// Every step of the run went through.
pub open spec fn all_ok<Op>(steps: Seq<Step<Op>>) -> bool {
    forall|i: int| 0 <= i < steps.len() ==> (#[trigger] steps[i]).ok
}

/// `steps` is a run of `plan` that stops at the first failure: with `done`
/// it carried out the whole plan and every step went through; without, it
/// carried out a non-empty prefix of the plan of which only the last step
/// failed.
pub open spec fn ran<Op>(steps: Seq<Step<Op>>, plan: Seq<Op>, done: bool) -> bool {
    if done {
        &&& ops_of(steps) == plan
        &&& all_ok(steps)
    } else {
        &&& 0 < steps.len() <= plan.len()
        &&& ops_of(steps) == plan.take(steps.len() as int)
        &&& all_ok(steps.drop_last())
        &&& !steps.last().ok
    }
}

/// `now` is `before` with further steps appended.
pub open spec fn extends<Op>(before: Seq<Step<Op>>, now: Seq<Step<Op>>) -> bool {
    before.len() <= now.len() && now.take(before.len() as int) == before
}

/// The steps that `now` has beyond `before`.
pub open spec fn added<Op>(before: Seq<Step<Op>>, now: Seq<Step<Op>>) -> Seq<Step<Op>> {
    now.skip(before.len() as int)
}

/// Between `before` and `now` a run of `plan` took place, complete or failed.
pub open spec fn stepped<Op>(
    before: Seq<Step<Op>>,
    now: Seq<Step<Op>>,
    plan: Seq<Op>,
    done: bool,
) -> bool {
    extends(before, now) && ran(added(before, now), plan, done)
}

/// A run of nothing is complete.
pub proof fn lemma_ran_nothing<Op>(t: Seq<Step<Op>>)
    ensures
        extends(t, t),
        added(t, t) == Seq::<Step<Op>>::empty(),
        ran(added(t, t), Seq::<Op>::empty(), true),
{
    assert(t.take(t.len() as int) == t);
    assert(added(t, t) == Seq::<Step<Op>>::empty());
    assert(ops_of(Seq::<Step<Op>>::empty()) == Seq::<Op>::empty());
}

/// Appending one step is a run of the one-operation plan.
pub proof fn lemma_ran_one<Op>(t: Seq<Step<Op>>, op: Op, ok: bool)
    ensures
        extends(t, t.push(Step { op, ok })),
        added(t, t.push(Step { op, ok })) == seq![Step { op, ok }],
        ran(added(t, t.push(Step { op, ok })), seq![op], ok),
{
    let s = Step { op, ok };
    let n = t.push(s);
    assert(n.take(t.len() as int) == t);
    assert(added(t, n) == seq![s]);
    assert(ops_of(seq![s]) == seq![op]);
    assert(seq![op].take(1) == seq![op]);
    assert(seq![s].drop_last() == Seq::<Step<Op>>::empty());
}

/// A complete run followed by a run is a run of the two plans in turn.
pub proof fn lemma_ran_then<Op>(
    t0: Seq<Step<Op>>,
    t1: Seq<Step<Op>>,
    t2: Seq<Step<Op>>,
    plan_a: Seq<Op>,
    plan_b: Seq<Op>,
    done: bool,
)
    requires
        extends(t0, t1),
        extends(t1, t2),
        ran(added(t0, t1), plan_a, true),
        ran(added(t1, t2), plan_b, done),
    ensures
        extends(t0, t2),
        ran(added(t0, t2), plan_a + plan_b, done),
{
    let a = added(t0, t1);
    let b = added(t1, t2);
    let c = added(t0, t2);
    assert(t2.take(t0.len() as int) == t0) by {
        assert(t2.take(t1.len() as int).take(t0.len() as int) == t2.take(t0.len() as int));
    }
    assert(c == a + b) by {
        assert(c.len() == a.len() + b.len());
        assert forall|i: int| 0 <= i < c.len() implies c[i] == (a + b)[i] by {
            if i < a.len() {
                assert(t1[t0.len() + i] == t2.take(t1.len() as int)[t0.len() + i]);
            }
        }
    }
    assert(a.len() == plan_a.len()) by {
        assert(ops_of(a).len() == plan_a.len());
    }
    assert forall|i: int| 0 <= i < a.len() implies (#[trigger] a[i]).op == plan_a[i] by {
        assert(ops_of(a)[i] == plan_a[i]);
    }
    if done {
        assert(b.len() == plan_b.len()) by {
            assert(ops_of(b).len() == plan_b.len());
        }
        assert forall|i: int| 0 <= i < b.len() implies (#[trigger] b[i]).op == plan_b[i] by {
            assert(ops_of(b)[i] == plan_b[i]);
        }
        assert(ops_of(c) =~= plan_a + plan_b);
        assert(all_ok(c)) by {
            assert forall|i: int| 0 <= i < c.len() implies (#[trigger] c[i]).ok by {
                if i < a.len() {
                    assert(a[i].ok);
                } else {
                    assert(b[i - a.len()].ok);
                }
            }
        }
    } else {
        assert forall|i: int| 0 <= i < b.len() implies (#[trigger] b[i]).op == plan_b[i] by {
            assert(ops_of(b)[i] == plan_b.take(b.len() as int)[i]);
        }
        assert(ops_of(c) =~= (plan_a + plan_b).take(c.len() as int));
        assert(all_ok(c.drop_last())) by {
            assert forall|i: int| 0 <= i < c.drop_last().len() implies (#[trigger] c.drop_last()[i]).ok by {
                if i < a.len() {
                    assert(a[i].ok);
                } else {
                    assert(b.drop_last()[i - a.len()].ok);
                }
            }
        }
        assert(c.last() == b.last());
    }
}

/// A run that failed stays a failed run of any longer plan.
pub proof fn lemma_ran_failed_prefix<Op>(steps: Seq<Step<Op>>, plan_a: Seq<Op>, plan_b: Seq<Op>)
    requires
        ran(steps, plan_a, false),
    ensures
        ran(steps, plan_a + plan_b, false),
{
    assert(plan_a.take(steps.len() as int) =~= (plan_a + plan_b).take(steps.len() as int));
}

/// `before` followed by a complete run of `plan`.
pub open spec fn completed<Op>(before: Seq<Step<Op>>, plan: Seq<Op>) -> Seq<Step<Op>> {
    before + Seq::new(plan.len(), |i: int| Step { op: plan[i], ok: true })
}

/// A complete run of a plan leaves one trace only.
pub proof fn lemma_completed<Op>(before: Seq<Step<Op>>, now: Seq<Step<Op>>, plan: Seq<Op>)
    requires
        stepped(before, now, plan, true),
    ensures
        now == completed(before, plan),
{
    let a = added(before, now);
    assert(a.len() == ops_of(a).len());
    assert forall|i: int| 0 <= i < now.len() implies now[i] == completed(before, plan)[i] by {
        if i < before.len() {
            assert(now.take(before.len() as int)[i] == before[i]);
        } else {
            let k = i - before.len();
            assert(a[k] == now[i]);
            assert(a[k].ok);
            assert(ops_of(a)[k] == plan[k]);
        }
    }
    assert(now =~= completed(before, plan));
}

/// The parts of a plan, one after the other.
pub open spec fn concat_all<Op>(parts: Seq<Seq<Op>>) -> Seq<Op>
    decreases parts.len(),
{
    if parts.len() == 0 {
        Seq::empty()
    } else {
        concat_all(parts.drop_last()) + parts.last()
    }
}

/// A plan in parts is its first `j` parts followed by the others.
pub proof fn lemma_concat_split<Op>(parts: Seq<Seq<Op>>, j: int)
    requires
        0 <= j <= parts.len(),
    ensures
        concat_all(parts) == concat_all(parts.take(j)) + concat_all(parts.skip(j)),
    decreases parts.len(),
{
    if j == parts.len() {
        assert(parts.take(j) == parts);
        assert(parts.skip(j).len() == 0);
        assert(concat_all(parts) =~= concat_all(parts) + Seq::<Op>::empty());
    } else {
        let dl = parts.drop_last();
        lemma_concat_split(dl, j);
        assert(dl.take(j) =~= parts.take(j));
        assert(parts.skip(j).drop_last() =~= dl.skip(j));
        assert(parts.skip(j).last() == parts.last());
        assert(concat_all(parts) =~= concat_all(parts.take(j)) + concat_all(parts.skip(j)));
    }
}

/// One more part joins the parts before it.
pub proof fn lemma_concat_next<Op>(parts: Seq<Seq<Op>>, i: int)
    requires
        0 <= i < parts.len(),
    ensures
        concat_all(parts.take(i + 1)) == concat_all(parts.take(i)) + parts[i],
{
    assert(parts.take(i + 1).drop_last() =~= parts.take(i));
}

/// A plan of one part is that part.
pub proof fn lemma_concat_whole<Op>(parts: Seq<Seq<Op>>)
    ensures
        concat_all(parts.take(0)) == Seq::<Op>::empty(),
        parts.take(parts.len() as int) == parts,
{
    assert(parts.take(0).len() == 0);
    assert(parts.take(parts.len() as int) =~= parts);
}

/// What holds of every operation of every part holds of every operation of
/// the plan.
pub proof fn lemma_concat_all_holds<Op>(parts: Seq<Seq<Op>>, holds: spec_fn(Op) -> bool)
    requires
        forall|k: int, j: int|
            0 <= k < parts.len() && 0 <= j < parts[k].len() ==> holds(#[trigger] parts[k][j]),
    ensures
        forall|i: int| 0 <= i < concat_all(parts).len() ==> holds(#[trigger] concat_all(parts)[i]),
    decreases parts.len(),
{
    if parts.len() > 0 {
        let front = parts.drop_last();
        assert forall|k: int, j: int| 0 <= k < front.len() && 0 <= j < front[k].len() implies holds(
            #[trigger] front[k][j],
        ) by {
            assert(front[k][j] == parts[k][j]);
        }
        lemma_concat_all_holds(front, holds);
        assert forall|i: int| 0 <= i < concat_all(parts).len() implies holds(
            #[trigger] concat_all(parts)[i],
        ) by {
            if i >= concat_all(front).len() {
                assert(concat_all(parts)[i] == parts[parts.len() - 1][i - concat_all(front).len()]);
            }
        }
    }
}

/// After the first `i` parts of a plan have run, a run of part `i` either
/// completes the first `i + 1` parts or fails the whole plan.
pub proof fn lemma_ran_part<Op>(
    t0: Seq<Step<Op>>,
    t1: Seq<Step<Op>>,
    t2: Seq<Step<Op>>,
    parts: Seq<Seq<Op>>,
    i: int,
    done: bool,
)
    requires
        0 <= i < parts.len(),
        extends(t0, t1),
        extends(t1, t2),
        ran(added(t0, t1), concat_all(parts.take(i)), true),
        ran(added(t1, t2), parts[i], done),
    ensures
        extends(t0, t2),
        done ==> ran(added(t0, t2), concat_all(parts.take(i + 1)), true),
        !done ==> ran(added(t0, t2), concat_all(parts), false),
{
    lemma_ran_then(t0, t1, t2, concat_all(parts.take(i)), parts[i], done);
    lemma_concat_next(parts, i);
    if !done {
        lemma_concat_split(parts, i + 1);
        lemma_ran_failed_prefix(
            added(t0, t2),
            concat_all(parts.take(i + 1)),
            concat_all(parts.skip(i + 1)),
        );
    }
}

/// After the first `k` operations of a plan have run, one more step either
/// completes the first `k + 1` or fails the whole plan.
pub proof fn lemma_ran_push<Op>(
    t0: Seq<Step<Op>>,
    t1: Seq<Step<Op>>,
    plan: Seq<Op>,
    k: int,
    ok: bool,
)
    requires
        0 <= k < plan.len(),
        extends(t0, t1),
        ran(added(t0, t1), plan.take(k), true),
    ensures
        extends(t0, t1.push(Step { op: plan[k], ok })),
        ok ==> ran(added(t0, t1.push(Step { op: plan[k], ok })), plan.take(k + 1), true),
        !ok ==> ran(added(t0, t1.push(Step { op: plan[k], ok })), plan, false),
{
    let t2 = t1.push(Step { op: plan[k], ok });
    lemma_ran_one(t1, plan[k], ok);
    lemma_ran_then(t0, t1, t2, plan.take(k), seq![plan[k]], ok);
    assert(plan.take(k) + seq![plan[k]] =~= plan.take(k + 1));
    if !ok {
        assert(plan =~= plan.take(k + 1) + plan.skip(k + 1));
        lemma_ran_failed_prefix(added(t0, t2), plan.take(k + 1), plan.skip(k + 1));
    }
}

} // verus!
