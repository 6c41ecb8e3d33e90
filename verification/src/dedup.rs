//! Runs of repeated messages: the model that deduplication follows, and what
//! holds of it.
use vstd::prelude::*;

verus! {

/// The run-length encoding of `s`: each maximal stretch of equal consecutive
/// items becomes one pair of its length and the item.
pub open spec fn runs<T>(s: Seq<T>) -> Seq<(nat, T)>
    decreases s.len(),
{
    if s.len() == 0 {
        Seq::empty()
    } else {
        let r = runs(s.drop_last());
        if r.len() > 0 && r.last().1 == s.last() {
            r.update(r.len() - 1, ((r.last().0 + 1) as nat, s.last()))
        } else {
            r.push((1nat, s.last()))
        }
    }
}

/// The items that a run-length encoding stands for, each pair giving its item
/// as many times as its length says.
pub open spec fn expand<T>(r: Seq<(nat, T)>) -> Seq<T>
    decreases r.len(),
{
    if r.len() == 0 {
        Seq::empty()
    } else {
        expand(r.drop_last()) + Seq::new(r.last().0, |_i: int| r.last().1)
    }
}

/// The runs of `s` but those of the empty message, which are never reported.
pub open spec fn reported(r: Seq<(nat, Seq<char>)>) -> Seq<(nat, Seq<char>)>
    decreases r.len(),
{
    if r.len() == 0 {
        Seq::empty()
    } else if r.last().1.len() > 0 {
        reported(r.drop_last()).push(r.last())
    } else {
        reported(r.drop_last())
    }
}

/// How many of the groups `g` repeat at least `threshold` times.
pub open spec fn kept_count(g: Seq<(nat, Seq<char>)>, threshold: nat) -> nat
    decreases g.len(),
{
    if g.len() == 0 {
        0
    } else if g.last().0 >= threshold {
        kept_count(g.drop_last(), threshold) + 1
    } else {
        kept_count(g.drop_last(), threshold)
    }
}

/// The runs of all items but the last are closed: the last run may still grow.
pub open spec fn closed_runs<T>(s: Seq<T>) -> Seq<(nat, T)> {
    if s.len() == 0 {
        Seq::empty()
    } else {
        runs(s).drop_last()
    }
}

/// Run-length encoding loses nothing: expanding the runs of `s` gives `s` back.
pub proof fn lemma_runs_expand<T>(s: Seq<T>)
    ensures
        expand(runs(s)) == s,
    decreases s.len(),
{
    if s.len() > 0 {
        let p = s.drop_last();
        let r = runs(p);
        lemma_runs_expand(p);
        if r.len() > 0 && r.last().1 == s.last() {
            let n = runs(s);
            assert(n.drop_last() =~= r.drop_last());
            assert(Seq::new(n.last().0, |_i: int| n.last().1) =~= Seq::new(
                r.last().0,
                |_i: int| r.last().1,
            ).push(s.last()));
            assert(expand(n) =~= expand(r).push(s.last()));
        } else {
            let n = runs(s);
            assert(n.drop_last() =~= r);
            assert(Seq::new(n.last().0, |_i: int| n.last().1) =~= seq![s.last()]);
        }
        assert(p.push(s.last()) =~= s);
    }
}

/// Every run is at least one item long.
pub proof fn lemma_runs_positive<T>(s: Seq<T>)
    ensures
        forall|i: int| 0 <= i < runs(s).len() ==> #[trigger] runs(s)[i].0 >= 1,
    decreases s.len(),
{
    if s.len() > 0 {
        let r = runs(s.drop_last());
        lemma_runs_positive(s.drop_last());
        let n = runs(s);
        assert forall|i: int| 0 <= i < n.len() implies #[trigger] n[i].0 >= 1 by {
            if i < r.len() {
                assert(r[i].0 >= 1);
            }
        }
    }
}

/// Neighbouring runs hold different items: each run is maximal.
pub proof fn lemma_runs_maximal<T>(s: Seq<T>)
    ensures
        forall|i: int| 0 <= i < runs(s).len() - 1 ==> #[trigger] runs(s)[i].1 != runs(s)[i + 1].1,
    decreases s.len(),
{
    if s.len() > 0 {
        let r = runs(s.drop_last());
        lemma_runs_maximal(s.drop_last());
        let n = runs(s);
        assert forall|i: int| 0 <= i < n.len() - 1 implies #[trigger] n[i].1 != n[i + 1].1 by {
            if i + 1 < r.len() {
                assert(n[i] == r[i]);
                assert(n[i + 1].1 == r[i + 1].1);
            }
        }
    }
}

/// There are no more runs than items.
pub proof fn lemma_runs_len<T>(s: Seq<T>)
    ensures
        runs(s).len() <= s.len(),
        s.len() > 0 ==> runs(s).len() > 0,
    decreases s.len(),
{
    if s.len() > 0 {
        lemma_runs_len(s.drop_last());
    }
}

/// Dropping the runs of the empty message leaves no more runs.
pub proof fn lemma_reported_len(r: Seq<(nat, Seq<char>)>)
    ensures
        reported(r).len() <= r.len(),
    decreases r.len(),
{
    if r.len() > 0 {
        lemma_reported_len(r.drop_last());
    }
}

/// Once one more item is read, the runs closed so far are those before.
pub proof fn lemma_closed_runs_step<T>(s: Seq<T>, x: T)
    ensures
        s.len() == 0 ==> closed_runs(s.push(x)) == Seq::<(nat, T)>::empty() && runs(s.push(x)).last()
            == (1nat, x),
        s.len() > 0 && runs(s).last().1 == x ==> closed_runs(s.push(x)) == closed_runs(s)
            && runs(s.push(x)).last() == ((runs(s).last().0 + 1) as nat, x),
        s.len() > 0 && runs(s).last().1 != x ==> closed_runs(s.push(x)) == runs(s)
            && runs(s.push(x)).last() == (1nat, x),
{
    let t = s.push(x);
    assert(t.drop_last() =~= s);
    if s.len() == 0 {
        assert(runs(t) =~= seq![(1nat, x)]);
    } else {
        lemma_runs_len(s);
        if runs(s).last().1 == x {
            assert(runs(t).drop_last() =~= runs(s).drop_last());
        } else {
            assert(runs(t).drop_last() =~= runs(s));
        }
    }
}

/// The non-empty messages of `s`, in order.
pub open spec fn nonempty_only(s: Seq<Seq<char>>) -> Seq<Seq<char>>
    decreases s.len(),
{
    if s.len() == 0 {
        Seq::empty()
    } else if s.last().len() > 0 {
        nonempty_only(s.drop_last()).push(s.last())
    } else {
        nonempty_only(s.drop_last())
    }
}

proof fn lemma_nonempty_only_concat(a: Seq<Seq<char>>, b: Seq<Seq<char>>)
    ensures
        nonempty_only(a + b) == nonempty_only(a) + nonempty_only(b),
    decreases b.len(),
{
    if b.len() == 0 {
        assert(a + b =~= a);
        assert(nonempty_only(a) + nonempty_only(b) =~= nonempty_only(a));
    } else {
        assert((a + b).drop_last() =~= a + b.drop_last());
        lemma_nonempty_only_concat(a, b.drop_last());
        if b.last().len() > 0 {
            assert(nonempty_only(a) + nonempty_only(b.drop_last()).push(b.last()) =~= (
            nonempty_only(a) + nonempty_only(b.drop_last())).push(b.last()));
        }
    }
}

proof fn lemma_nonempty_only_repeat(n: nat, x: Seq<char>)
    ensures
        nonempty_only(Seq::new(n, |_i: int| x)) == if x.len() > 0 {
            Seq::new(n, |_i: int| x)
        } else {
            Seq::<Seq<char>>::empty()
        },
    decreases n,
{
    if n > 0 {
        let s = Seq::new(n, |_i: int| x);
        assert(s.drop_last() =~= Seq::new((n - 1) as nat, |_i: int| x));
        lemma_nonempty_only_repeat((n - 1) as nat, x);
        if x.len() > 0 {
            assert(Seq::new((n - 1) as nat, |_i: int| x).push(x) =~= s);
        }
    } else {
        assert(Seq::new(n, |_i: int| x) =~= Seq::<Seq<char>>::empty());
    }
}

proof fn lemma_expand_reported(r: Seq<(nat, Seq<char>)>)
    ensures
        expand(reported(r)) == nonempty_only(expand(r)),
    decreases r.len(),
{
    if r.len() == 0 {
    } else {
        let p = r.drop_last();
        let x = r.last();
        lemma_expand_reported(p);
        lemma_nonempty_only_concat(expand(p), Seq::new(x.0, |_i: int| x.1));
        lemma_nonempty_only_repeat(x.0, x.1);
        if x.1.len() > 0 {
            assert(reported(r).drop_last() =~= reported(p));
        } else {
            assert(nonempty_only(expand(p)) + Seq::<Seq<char>>::empty() =~= nonempty_only(expand(p)));
        }
    }
}

/// Law of deduplication: the groups reported over a stream of messages,
/// each expanded to its message repeated its count times, give back exactly
/// the non-empty messages of the stream, in order; no message is lost,
/// added or moved.
pub proof fn lemma_reported_groups_cover_messages(s: Seq<Seq<char>>)
    ensures
        expand(reported(runs(s))) == nonempty_only(s),
{
    lemma_runs_expand(s);
    lemma_expand_reported(runs(s));
}

} // verus!
