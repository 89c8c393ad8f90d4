use vstd::prelude::*;
use crate::text::strings_contain;

verus! {

/// `t` followed by each element of `vals` that is not already present, in the
/// order of `vals`; an element repeated in `vals` is added once.
pub open spec fn extend_unique_spec(t: Seq<Seq<char>>, vals: Seq<Seq<char>>) -> Seq<Seq<char>>
    decreases vals.len(),
{
    if vals.len() == 0 {
        t
    } else {
        let acc = extend_unique_spec(t, vals.drop_last());
        if acc.contains(vals.last()) {
            acc
        } else {
            acc.push(vals.last())
        }
    }
}

/// Appends to `target` each string of `values` that `target` does not hold yet.
pub fn extend_unique(target: &mut Vec<String>, values: &Vec<String>)
    ensures
        final(target).deep_view() == extend_unique_spec(old(target).deep_view(), values.deep_view()),
{
    let ghost t0 = target.deep_view();
    let ghost vals = values.deep_view();
    let mut i: usize = 0;
    assert(vals.take(0) =~= Seq::<Seq<char>>::empty());
    while i < values.len()
        invariant
            i <= values.len(),
            vals == values.deep_view(),
            target.deep_view() == extend_unique_spec(t0, vals.take(i as int)),
        decreases values.len() - i,
    {
        let ghost before = target.deep_view();
        assert(vals.take(i + 1).drop_last() =~= vals.take(i as int));
        assert(vals.take(i + 1).last() == values[i as int]@);
        if !strings_contain(target, values[i].as_str()) {
            let v = values[i].clone();
            target.push(v);
            assert(target.deep_view() =~= before.push(values[i as int]@));
        }
        i += 1;
    }
    assert(vals.take(values.len() as int) =~= vals);
}

/// An element is in the extended sequence exactly when it was in `t` or in `vals`.
pub proof fn lemma_extend_unique_contains(t: Seq<Seq<char>>, vals: Seq<Seq<char>>, x: Seq<char>)
    ensures
        extend_unique_spec(t, vals).contains(x) <==> (t.contains(x) || vals.contains(x)),
    decreases vals.len(),
{
    if vals.len() > 0 {
        lemma_extend_unique_contains(t, vals.drop_last(), x);
        let acc = extend_unique_spec(t, vals.drop_last());
        if vals.contains(x) && !vals.drop_last().contains(x) {
            let k = choose|k: int| 0 <= k < vals.len() && vals[k] == x;
            if k < vals.len() - 1 {
                assert(vals.drop_last()[k] == x);
            }
            assert(x == vals.last());
            if !acc.contains(x) {
                assert(acc.push(x)[acc.len() as int] == x);
            }
        }
        if vals.drop_last().contains(x) {
            let k = choose|k: int| 0 <= k < vals.len() - 1 && vals.drop_last()[k] == x;
            assert(vals[k] == x);
        }
        if acc.contains(x) && !acc.contains(vals.last()) {
            let k = choose|k: int| 0 <= k < acc.len() && acc[k] == x;
            assert(acc.push(vals.last())[k] == x);
        }
        if extend_unique_spec(t, vals).contains(x) && !acc.contains(x) {
            assert(x == vals.last());
            assert(vals[vals.len() - 1] == x);
        }
    }
}

/// Extending never changes or drops what `t` held: `t` stays a prefix.
pub proof fn lemma_extend_unique_prefix(t: Seq<Seq<char>>, vals: Seq<Seq<char>>)
    ensures
        t.len() <= extend_unique_spec(t, vals).len() <= t.len() + vals.len(),
        extend_unique_spec(t, vals).subrange(0, t.len() as int) == t,
    decreases vals.len(),
{
    if vals.len() > 0 {
        lemma_extend_unique_prefix(t, vals.drop_last());
        let acc = extend_unique_spec(t, vals.drop_last());
        assert(acc.push(vals.last()).subrange(0, t.len() as int) =~= acc.subrange(0, t.len() as int));
    }
}

/// Extending a sequence without repeats yields a sequence without repeats.
pub proof fn lemma_extend_unique_no_duplicates(t: Seq<Seq<char>>, vals: Seq<Seq<char>>)
    requires
        t.no_duplicates(),
    ensures
        extend_unique_spec(t, vals).no_duplicates(),
    decreases vals.len(),
{
    if vals.len() > 0 {
        lemma_extend_unique_no_duplicates(t, vals.drop_last());
        let acc = extend_unique_spec(t, vals.drop_last());
        if !acc.contains(vals.last()) {
            let r = acc.push(vals.last());
            assert forall|i: int, j: int| 0 <= i < r.len() && 0 <= j < r.len() && i != j implies r[i]
                != r[j] by {
                if i == acc.len() as int {
                    assert(r[j] == acc[j]);
                } else if j == acc.len() as int {
                    assert(r[i] == acc[i]);
                }
            }
        }
    }
}

/// Extending with elements that are all present already changes nothing.
pub proof fn lemma_extend_unique_present(t: Seq<Seq<char>>, vals: Seq<Seq<char>>)
    requires
        forall|k: int| 0 <= k < vals.len() ==> t.contains(#[trigger] vals[k]),
    ensures
        extend_unique_spec(t, vals) == t,
    decreases vals.len(),
{
    if vals.len() > 0 {
        assert forall|k: int| 0 <= k < vals.drop_last().len() implies t.contains(
            #[trigger] vals.drop_last()[k],
        ) by {
            assert(vals.drop_last()[k] == vals[k]);
        }
        lemma_extend_unique_present(t, vals.drop_last());
        assert(t.contains(vals[vals.len() - 1]));
    }
}

/// Extending twice with the same values is the same as extending once.
pub proof fn lemma_extend_unique_idempotent(t: Seq<Seq<char>>, vals: Seq<Seq<char>>)
    ensures
        extend_unique_spec(extend_unique_spec(t, vals), vals) == extend_unique_spec(t, vals),
{
    let u = extend_unique_spec(t, vals);
    assert forall|k: int| 0 <= k < vals.len() implies u.contains(#[trigger] vals[k]) by {
        assert(vals.contains(vals[k]));
        lemma_extend_unique_contains(t, vals, vals[k]);
    }
    lemma_extend_unique_present(u, vals);
}

} // verus!
