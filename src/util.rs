//! Utility functions on sequences.

use vstd::prelude::*;
use vstd::seq_lib::group_to_multiset_ensures;

verus! {

/// `v` split into groups at the elements that `marks` flags; a flagged
/// element belongs to no group and starts a new one. There is always at least
/// one group.
pub open spec fn split_marked<T>(v: Seq<T>, marks: Seq<bool>) -> Seq<Seq<T>>
    decreases v.len(),
{
    if v.len() == 0 {
        seq![Seq::empty()]
    } else {
        let prev = split_marked(v.drop_last(), marks.take(v.len() - 1));
        if marks[v.len() - 1] {
            prev.push(Seq::empty())
        } else {
            prev.update(prev.len() - 1, prev.last().push(v.last()))
        }
    }
}

/// The views of a sequence of vectors.
pub open spec fn group_views<T>(v: Seq<Vec<T>>) -> Seq<Seq<T>> {
    v.map_values(|g: Vec<T>| g@)
}

/// Splits `v`, in order, into the groups between the elements for which `f`
/// holds; those elements are dropped. `f` is asked once about each element,
/// and `marks` in the contract stands for its answers.
pub fn partition_by<T, F: Fn(&T) -> bool>(f: F, v: Vec<T>) -> (r: Vec<Vec<T>>)
    requires
        forall|x: &T| #[trigger] f.requires((x,)),
    ensures
        exists|marks: Seq<bool>|
            {
                &&& marks.len() == v@.len()
                &&& forall|i: int| 0 <= i < v@.len() ==> f.ensures((&v@[i],), #[trigger] marks[i])
                &&& group_views(r@) == split_marked(v@, marks)
            },
{
    let ghost orig = v@;
    let ghost mut marks: Seq<bool> = Seq::empty();
    let mut rest = v;
    let mut out: Vec<Vec<T>> = Vec::new();
    let mut cur: Vec<T> = Vec::new();
    let mut i: usize = 0;
    let n = rest.len();
    proof {
        assert(orig.take(0) =~= Seq::<T>::empty());
        assert(group_views(out@).push(cur@) =~= split_marked(orig.take(0), marks));
    }
    while rest.len() > 0
        invariant
            i <= orig.len() == n,
            rest@ == orig.skip(i as int),
            marks.len() == i,
            forall|j: int| 0 <= j < i ==> f.ensures((&orig[j],), #[trigger] marks[j]),
            forall|x: &T| #[trigger] f.requires((x,)),
            group_views(out@).push(cur@) == split_marked(orig.take(i as int), marks),
        decreases rest.len(),
    {
        let x = rest.remove(0);
        proof {
            assert(x == orig[i as int]);
        }
        let flagged = f(&x);
        let ghost prev = group_views(out@).push(cur@);
        proof {
            let old_marks = marks;
            marks = marks.push(flagged);
            assert(orig.take(i + 1).drop_last() =~= orig.take(i as int));
            assert(marks.take(i as int) =~= old_marks);
            assert(orig.take(i + 1).len() == i + 1);
            assert(marks[i as int] == flagged);
            assert(orig.take(i + 1).last() == x);
        }
        if flagged {
            out.push(cur);
            cur = Vec::new();
            proof {
                assert(group_views(out@).push(cur@) =~= prev.push(Seq::empty()));
            }
        } else {
            cur.push(x);
            proof {
                assert(group_views(out@).push(cur@) =~= prev.update(
                    prev.len() - 1,
                    prev.last().push(x),
                ));
            }
        }
        i += 1;
        proof {
            assert(rest@ =~= orig.skip(i as int));
        }
    }
    proof {
        assert(orig.take(i as int) =~= orig);
    }
    out.push(cur);
    proof {
        assert(group_views(out@) =~= split_marked(orig, marks));
    }
    out
}

/// The elements of `v` whose label in `labels` is `k`, in order.
pub open spec fn select<T>(v: Seq<T>, labels: Seq<i64>, k: i64) -> Seq<T>
    decreases v.len(),
{
    if v.len() == 0 {
        Seq::empty()
    } else {
        let prev = select(v.drop_last(), labels.take(v.len() - 1), k);
        if labels[v.len() - 1] == k {
            prev.push(v.last())
        } else {
            prev
        }
    }
}

/// `keys` is each label of `labels` once, in descending order.
pub open spec fn is_descending_keys(keys: Seq<i64>, labels: Seq<i64>) -> bool {
    &&& forall|i: int, j: int| 0 <= i < j < keys.len() ==> #[trigger] keys[i] > #[trigger] keys[j]
    &&& forall|x: i64| keys.contains(x) <==> labels.contains(x)
}

/// `r` holds, for each label in descending order, the elements with that
/// label, in order.
pub open spec fn grouped_by<T>(r: Seq<Seq<T>>, v: Seq<T>, labels: Seq<i64>, keys: Seq<i64>) -> bool {
    &&& is_descending_keys(keys, labels)
    &&& r.len() == keys.len()
    &&& forall|j: int| 0 <= j < keys.len() ==> #[trigger] r[j] == select(v, labels, keys[j])
}

/// Relies on `itertools::sorted`: the same labels, in ascending order.
#[verifier::external_body]
fn sorted_labels(v: &Vec<i64>) -> (r: Vec<i64>)
    ensures
        r@.to_multiset() == v@.to_multiset(),
        forall|i: int, j: int| 0 <= i < j < r@.len() ==> #[trigger] r@[i] <= #[trigger] r@[j],
{
    itertools::sorted(v.iter().copied()).collect()
}

/// Relies on `itertools::rev`: the labels in reverse order.
#[verifier::external_body]
fn reversed_labels(v: Vec<i64>) -> (r: Vec<i64>)
    ensures
        r@ == v@.reverse(),
{
    itertools::rev(v).collect()
}

/// Each label of `labels` once, in descending order.
fn descending_keys(labels: &Vec<i64>) -> (keys: Vec<i64>)
    ensures
        is_descending_keys(keys@, labels@),
{
    broadcast use group_to_multiset_ensures;

    let sorted = sorted_labels(labels);
    let desc = reversed_labels(sorted);
    let ghost d = desc@;
    proof {
        sorted@.lemma_reverse_to_multiset();
        assert forall|x: i64| d.contains(x) <==> labels@.contains(x) by {
            assert(d.contains(x) <==> d.to_multiset().count(x) > 0);
            assert(labels@.contains(x) <==> labels@.to_multiset().count(x) > 0);
        }
        assert forall|i: int, j: int| 0 <= i < j < d.len() implies #[trigger] d[i] >= #[trigger] d[j] by {
            assert(d[i] == sorted@[sorted@.len() - 1 - i]);
            assert(d[j] == sorted@[sorted@.len() - 1 - j]);
        }
    }
    let mut keys: Vec<i64> = Vec::new();
    let mut i: usize = 0;
    while i < desc.len()
        invariant
            d == desc@,
            i <= d.len(),
            forall|a: int, b: int| 0 <= a < b < d.len() ==> #[trigger] d[a] >= #[trigger] d[b],
            forall|a: int, b: int| 0 <= a < b < keys@.len() ==> #[trigger] keys@[a] > #[trigger] keys@[b],
            forall|x: i64| keys@.contains(x) <==> d.take(i as int).contains(x),
            i == 0 ==> keys@.len() == 0,
            i > 0 ==> keys@.len() > 0 && keys@.last() == d[i - 1],
        decreases d.len() - i,
    {
        let x = desc[i];
        let ghost before = keys@;
        proof {
            assert(d.take(i + 1) =~= d.take(i as int).push(x));
            assert forall|y: i64| d.take(i + 1).contains(y) <==> d.take(i as int).contains(y) || y == x by {
                if d.take(i + 1).contains(y) {
                    let k = choose|k: int| 0 <= k < i + 1 && #[trigger] d.take(i + 1)[k] == y;
                    if k < i {
                        assert(d.take(i as int)[k] == y);
                    }
                }
                if d.take(i as int).contains(y) {
                    let k = choose|k: int| 0 <= k < i && #[trigger] d.take(i as int)[k] == y;
                    assert(d.take(i + 1)[k] == y);
                }
                if y == x {
                    assert(d.take(i + 1)[i as int] == y);
                }
            }
        }
        if keys.len() == 0 || keys[keys.len() - 1] != x {
            keys.push(x);
            proof {
                assert forall|y: i64| keys@.contains(y) <==> before.contains(y) || y == x by {
                    if keys@.contains(y) {
                        let k = choose|k: int| 0 <= k < keys@.len() && #[trigger] keys@[k] == y;
                        if k < before.len() {
                            assert(before[k] == y);
                        }
                    }
                    if before.contains(y) {
                        let k = choose|k: int| 0 <= k < before.len() && #[trigger] before[k] == y;
                        assert(keys@[k] == y);
                    }
                    if y == x {
                        assert(keys@[before.len() as int] == y);
                    }
                }
                if i > 0 {
                    assert(d[i - 1] >= d[i as int]);
                }
                assert forall|y: i64| keys@.contains(y) <==> d.take(i + 1).contains(y) by {
                    assert(d.take(i + 1).contains(y) <==> d.take(i as int).contains(y) || y == x);
                    assert(keys@.contains(y) <==> before.contains(y) || y == x);
                    assert(before.contains(y) <==> d.take(i as int).contains(y));
                }
            }
        } else {
            proof {
                assert(before[before.len() - 1] == x);
                assert(before.contains(x));
                assert(keys@ == before);
                assert forall|y: i64| keys@.contains(y) <==> d.take(i + 1).contains(y) by {
                    assert(d.take(i + 1).contains(y) <==> d.take(i as int).contains(y) || y == x);
                    assert(before.contains(y) <==> d.take(i as int).contains(y));
                }
            }
        }
        i += 1;
    }
    proof {
        assert(d.take(d.len() as int) =~= d);
    }
    keys
}

/// Groups the elements of `v` by the label that `f` gives each: one group per
/// label, the groups in descending order of label, each group's elements in
/// their order in `v`. `f` is asked once about each element, and `labels` in
/// the contract stands for its answers.
pub fn partition<T, F: Fn(&T) -> i64>(f: F, v: Vec<T>) -> (r: Vec<Vec<T>>)
    requires
        forall|x: &T| #[trigger] f.requires((x,)),
    ensures
        exists|labels: Seq<i64>, keys: Seq<i64>|
            {
                &&& labels.len() == v@.len()
                &&& forall|i: int| 0 <= i < v@.len() ==> f.ensures((&v@[i],), #[trigger] labels[i])
                &&& grouped_by(group_views(r@), v@, labels, keys)
            },
{
    let ghost orig = v@;
    let mut labels: Vec<i64> = Vec::new();
    let mut i: usize = 0;
    while i < v.len()
        invariant
            orig == v@,
            i <= v.len(),
            labels@.len() == i,
            forall|j: int| 0 <= j < i ==> f.ensures((&orig[j],), #[trigger] labels@[j]),
            forall|x: &T| #[trigger] f.requires((x,)),
        decreases v.len() - i,
    {
        let l = f(&v[i]);
        labels.push(l);
        i += 1;
    }
    let keys = descending_keys(&labels);
    let ghost ks = keys@;
    let ghost ls = labels@;
    let mut groups: Vec<Vec<T>> = Vec::new();
    let mut j: usize = 0;
    while j < keys.len()
        invariant
            j <= keys.len(),
            groups@.len() == j,
            forall|g: int| 0 <= g < j ==> (#[trigger] groups@[g])@ == Seq::<T>::empty(),
        decreases keys.len() - j,
    {
        groups.push(Vec::new());
        j += 1;
    }
    proof {
        assert(orig.take(0) =~= Seq::<T>::empty());
        assert(ls.take(0) =~= Seq::<i64>::empty());
    }
    let mut rest = v;
    let n = rest.len();
    i = 0;
    while rest.len() > 0
        invariant
            n == orig.len() == ls.len(),
            i <= n,
            rest@ == orig.skip(i as int),
            ks == keys@,
            ls == labels@,
            is_descending_keys(ks, ls),
            groups@.len() == ks.len(),
            forall|g: int|
                0 <= g < ks.len() ==> (#[trigger] groups@[g])@ == select(
                    orig.take(i as int),
                    ls.take(i as int),
                    ks[g],
                ),
        decreases rest.len(),
    {
        let x = rest.remove(0);
        proof {
            assert(x == orig[i as int]);
            assert(ls.contains(ls[i as int]));
        }
        let l = labels[i];
        let mut g: usize = 0;
        while g < keys.len() && keys[g] != l
            invariant
                g <= keys.len(),
                ks == keys@,
                forall|h: int| 0 <= h < g ==> ks[h] != l,
            decreases keys.len() - g,
        {
            g += 1;
        }
        proof {
            if g == keys.len() {
                assert(ks.contains(l));
                let h = choose|h: int| 0 <= h < ks.len() && #[trigger] ks[h] == l;
                assert(ks[h] != l);
            }
        }
        let ghost before = groups@;
        let mut grp = groups.remove(g);
        grp.push(x);
        groups.insert(g, grp);
        proof {
            let v1 = orig.take(i + 1);
            let l1 = ls.take(i + 1);
            assert(v1.drop_last() =~= orig.take(i as int));
            assert(l1.take(i as int) =~= ls.take(i as int));
            assert(l1[i as int] == l);
            assert(v1.last() == x);
            assert forall|h: int| 0 <= h < ks.len() implies (#[trigger] groups@[h])@ == select(
                v1,
                l1,
                ks[h],
            ) by {
                if h == g {
                    assert(groups@[h] == grp);
                } else {
                    assert(groups@[h] == before[h]);
                    if ks[h] == l {
                        if h < g {
                            assert(ks[h] > ks[g as int]);
                        } else {
                            assert(ks[g as int] > ks[h]);
                        }
                    }
                }
            }
        }
        i += 1;
        proof {
            assert(rest@ =~= orig.skip(i as int));
        }
    }
    proof {
        assert(orig.take(n as int) =~= orig);
        assert(ls.take(n as int) =~= ls);
        assert(grouped_by(group_views(groups@), orig, ls, ks));
    }
    groups
}

} // verus!
