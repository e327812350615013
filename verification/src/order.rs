//! A verified stable sort, descending by a `u64` stamp.
//!
//! Entries are pairs `(payload, stamp)`. The specification `sort_desc` is an
//! insertion sort that places each new entry after every entry whose stamp is
//! at least as large, which makes it stable: entries with equal stamps keep
//! their relative order, captured by `with_stamp`.

use vstd::prelude::*;

verus! {

/// Descending order by stamp.
pub open spec fn sorted_desc<T>(s: Seq<(T, u64)>) -> bool {
    forall|i: int, j: int| 0 <= i < j < s.len() ==> s[i].1 >= s[j].1
}

/// `x` placed after every entry whose stamp is `>= x.1`.
pub open spec fn insert_desc<T>(s: Seq<(T, u64)>, x: (T, u64)) -> Seq<(T, u64)>
    decreases s.len(),
{
    if s.len() == 0 {
        seq![x]
    } else if s[0].1 >= x.1 {
        seq![s[0]] + insert_desc(s.drop_first(), x)
    } else {
        seq![x] + s
    }
}

/// Stable insertion sort, descending by stamp.
pub open spec fn sort_desc<T>(s: Seq<(T, u64)>) -> Seq<(T, u64)>
    decreases s.len(),
{
    if s.len() == 0 {
        Seq::<(T, u64)>::empty()
    } else {
        insert_desc(sort_desc(s.drop_last()), s.last())
    }
}

/// The subsequence of entries carrying the stamp `t`, in order.
pub open spec fn with_stamp<T>(s: Seq<(T, u64)>, t: u64) -> Seq<(T, u64)>
    decreases s.len(),
{
    if s.len() == 0 {
        Seq::<(T, u64)>::empty()
    } else if s[0].1 == t {
        seq![s[0]] + with_stamp(s.drop_first(), t)
    } else {
        with_stamp(s.drop_first(), t)
    }
}

/// Appending one entry extends `with_stamp` at the back.
pub proof fn lemma_with_stamp_snoc<T>(s: Seq<(T, u64)>, x: (T, u64), t: u64)
    ensures
        with_stamp(s.push(x), t) == if x.1 == t {
            with_stamp(s, t).push(x)
        } else {
            with_stamp(s, t)
        },
    decreases s.len(),
{
    if s.len() == 0 {
        assert(s.push(x).drop_first() =~= Seq::<(T, u64)>::empty());
        assert(s.push(x)[0] == x);
        assert(with_stamp(Seq::<(T, u64)>::empty(), t) =~= Seq::<(T, u64)>::empty());
        if x.1 == t {
            assert(with_stamp(s.push(x), t) =~= with_stamp(s, t).push(x));
        }
    } else {
        assert(s.push(x)[0] == s[0]);
        assert(s.push(x).drop_first() =~= s.drop_first().push(x));
        lemma_with_stamp_snoc(s.drop_first(), x, t);
        if s[0].1 == t {
            if x.1 == t {
                assert(seq![s[0]] + with_stamp(s.drop_first(), t).push(x) =~= (seq![s[0]]
                    + with_stamp(s.drop_first(), t)).push(x));
            }
        }
    }
}

/// In a descending list headed by a stamp below `t`, no entry carries `t`.
pub proof fn lemma_with_stamp_none<T>(s: Seq<(T, u64)>, t: u64)
    requires
        sorted_desc(s),
        s.len() > 0 ==> s[0].1 < t,
    ensures
        with_stamp(s, t) == Seq::<(T, u64)>::empty(),
    decreases s.len(),
{
    if s.len() > 0 {
        assert(forall|i: int, j: int|
            0 <= i < j < s.drop_first().len() ==> s.drop_first()[i].1 >= s.drop_first()[j].1);
        if s.drop_first().len() > 0 {
            assert(s.drop_first()[0] == s[1]);
            assert(s[0].1 >= s[1].1);
        }
        lemma_with_stamp_none(s.drop_first(), t);
    }
}

/// Insertion keeps the order and puts an equal-stamped entry last among its
/// stamp class.
pub proof fn lemma_insert_desc<T>(s: Seq<(T, u64)>, x: (T, u64), t: u64)
    requires
        sorted_desc(s),
    ensures
        sorted_desc(insert_desc(s, x)),
        insert_desc(s, x).len() == s.len() + 1,
        insert_desc(s, x)[0] == if s.len() > 0 && s[0].1 >= x.1 {
            s[0]
        } else {
            x
        },
        with_stamp(insert_desc(s, x), t) == if x.1 == t {
            with_stamp(s, t).push(x)
        } else {
            with_stamp(s, t)
        },
    decreases s.len(),
{
    if s.len() == 0 {
        assert(insert_desc(s, x) =~= seq![x]);
        assert(seq![x].drop_first() =~= Seq::<(T, u64)>::empty());
        assert(with_stamp(Seq::<(T, u64)>::empty(), t) =~= Seq::<(T, u64)>::empty());
        if x.1 == t {
            assert(with_stamp(insert_desc(s, x), t) =~= with_stamp(s, t).push(x));
        }
    } else if s[0].1 >= x.1 {
        let s2 = s.drop_first();
        assert(forall|i: int, j: int| 0 <= i < j < s2.len() ==> s2[i].1 >= s2[j].1);
        lemma_insert_desc(s2, x, t);
        let r = seq![s[0]] + insert_desc(s2, x);
        assert(r.drop_first() =~= insert_desc(s2, x));
        assert forall|i: int, j: int| 0 <= i < j < r.len() implies r[i].1 >= r[j].1 by {
            if i > 0 {
                assert(r[i] == insert_desc(s2, x)[i - 1]);
                assert(r[j] == insert_desc(s2, x)[j - 1]);
            } else {
                assert(r[j] == insert_desc(s2, x)[j - 1]);
                if s2.len() > 0 && s2[0].1 >= x.1 {
                    assert(insert_desc(s2, x)[0] == s2[0]);
                    assert(s[0].1 >= s2[0].1);
                } else {
                    assert(insert_desc(s2, x)[0] == x);
                }
                assert(insert_desc(s2, x)[0].1 >= insert_desc(s2, x)[j - 1].1);
            }
        }
        if s[0].1 == t {
            if x.1 == t {
                assert(seq![s[0]] + with_stamp(s2, t).push(x) =~= (seq![s[0]] + with_stamp(
                    s2,
                    t,
                )).push(x));
            }
        }
    } else {
        let r = seq![x] + s;
        assert(r.drop_first() =~= s);
        assert forall|i: int, j: int| 0 <= i < j < r.len() implies r[i].1 >= r[j].1 by {
            if i > 0 {
                assert(r[i] == s[i - 1] && r[j] == s[j - 1]);
            } else {
                assert(r[j] == s[j - 1]);
                if j - 1 > 0 {
                    assert(s[0].1 >= s[j - 1].1);
                }
            }
        }
        if x.1 == t {
            lemma_with_stamp_none(s, t);
            assert(with_stamp(r, t) == seq![x] + with_stamp(s, t));
            assert(seq![x] + Seq::<(T, u64)>::empty() =~= Seq::<(T, u64)>::empty().push(x));
            assert(with_stamp(s, t).push(x) =~= with_stamp(r, t));
        }
    }
}

/// The sort is a permutation that orders stamps descending and, for every
/// stamp value, keeps the relative order its entries came in with.
pub proof fn lemma_sort_desc<T>(s: Seq<(T, u64)>, t: u64)
    ensures
        sorted_desc(sort_desc(s)),
        sort_desc(s).len() == s.len(),
        with_stamp(sort_desc(s), t) == with_stamp(s, t),
    decreases s.len(),
{
    if s.len() > 0 {
        let s2 = s.drop_last();
        lemma_sort_desc(s2, t);
        lemma_insert_desc(sort_desc(s2), s.last(), t);
        lemma_with_stamp_snoc(s2, s.last(), t);
        assert(s2.push(s.last()) =~= s);
    }
}

/// Sorting a list that is already descending leaves it unchanged.
pub proof fn lemma_sort_desc_of_sorted<T>(s: Seq<(T, u64)>)
    requires
        sorted_desc(s),
    ensures
        sort_desc(s) == s,
    decreases s.len(),
{
    if s.len() > 0 {
        let s2 = s.drop_last();
        assert(forall|i: int, j: int| 0 <= i < j < s2.len() ==> s2[i].1 >= s2[j].1);
        lemma_sort_desc_of_sorted(s2);
        lemma_insert_at_end(s2, s.last());
        assert(s2.push(s.last()) =~= s);
    }
}

/// Inserting an entry no larger than every stamp appends it.
pub proof fn lemma_insert_at_end<T>(s: Seq<(T, u64)>, x: (T, u64))
    requires
        forall|k: int| 0 <= k < s.len() ==> s[k].1 >= x.1,
    ensures
        insert_desc(s, x) == s.push(x),
    decreases s.len(),
{
    if s.len() == 0 {
        assert(insert_desc(s, x) =~= s.push(x));
    } else {
        lemma_insert_at_end(s.drop_first(), x);
        assert(seq![s[0]] + s.drop_first().push(x) =~= s.push(x));
    }
}

/// Inserting an entry with a strictly larger stamp than the head puts it first.
pub proof fn lemma_insert_at_front<T>(s: Seq<(T, u64)>, x: (T, u64))
    requires
        s.len() > 0 ==> s[0].1 < x.1,
    ensures
        insert_desc(s, x) == seq![x] + s,
    decreases s.len(),
{
    if s.len() == 0 {
        assert(insert_desc(s, x) =~= seq![x] + s);
    }
}

/// Sorting a strictly ascending list reverses it.
pub proof fn lemma_sort_desc_of_ascending<T>(s: Seq<(T, u64)>)
    requires
        forall|i: int, j: int| 0 <= i < j < s.len() ==> s[i].1 < s[j].1,
    ensures
        sort_desc(s) == s.reverse(),
    decreases s.len(),
{
    if s.len() == 0 {
        assert(sort_desc(s) =~= s.reverse());
    } else {
        let s2 = s.drop_last();
        assert(forall|i: int, j: int| 0 <= i < j < s2.len() ==> s2[i].1 < s2[j].1);
        lemma_sort_desc_of_ascending(s2);
        let dummy: u64 = 0;
        lemma_sort_desc(s2, dummy);
        if s2.len() > 0 {
            assert(s2.reverse().len() == s2.len());
            assert(s2.reverse()[0] == s2[s2.len() - 1]);
            assert(s2[s2.len() - 1].1 < s.last().1);
        }
        lemma_insert_at_front(s2.reverse(), s.last());
        assert(seq![s.last()] + s2.reverse() =~= s.reverse());
    }
}

/// Insertion commutes with mapping a function over the payloads.
pub proof fn lemma_insert_desc_map<T, U>(s: Seq<(T, u64)>, x: (T, u64), f: spec_fn(T) -> U)
    ensures
        insert_desc(s, x).map_values(|e: (T, u64)| (f(e.0), e.1)) == insert_desc(
            s.map_values(|e: (T, u64)| (f(e.0), e.1)),
            (f(x.0), x.1),
        ),
    decreases s.len(),
{
    let m = s.map_values(|e: (T, u64)| (f(e.0), e.1));
    if s.len() == 0 {
        assert(insert_desc(s, x).map_values(|e: (T, u64)| (f(e.0), e.1)) =~= insert_desc(
            m,
            (f(x.0), x.1),
        ));
    } else if s[0].1 >= x.1 {
        lemma_insert_desc_map(s.drop_first(), x, f);
        assert(m[0] == (f(s[0].0), s[0].1));
        assert(s.drop_first().map_values(|e: (T, u64)| (f(e.0), e.1)) =~= m.drop_first());
        assert((seq![s[0]] + insert_desc(s.drop_first(), x)).map_values(
            |e: (T, u64)| (f(e.0), e.1),
        ) =~= seq![m[0]] + insert_desc(m.drop_first(), (f(x.0), x.1)));
    } else {
        assert(m[0] == (f(s[0].0), s[0].1));
        assert((seq![x] + s).map_values(|e: (T, u64)| (f(e.0), e.1)) =~= seq![(f(x.0), x.1)] + m);
    }
}

/// Sorting commutes with mapping a function over the payloads.
pub proof fn lemma_sort_desc_map<T, U>(s: Seq<(T, u64)>, f: spec_fn(T) -> U)
    ensures
        sort_desc(s).map_values(|e: (T, u64)| (f(e.0), e.1)) == sort_desc(
            s.map_values(|e: (T, u64)| (f(e.0), e.1)),
        ),
    decreases s.len(),
{
    let m = s.map_values(|e: (T, u64)| (f(e.0), e.1));
    if s.len() == 0 {
        assert(sort_desc(s).map_values(|e: (T, u64)| (f(e.0), e.1)) =~= sort_desc(m));
    } else {
        let s2 = s.drop_last();
        lemma_sort_desc_map(s2, f);
        lemma_insert_desc_map(sort_desc(s2), s.last(), f);
        assert(s2.map_values(|e: (T, u64)| (f(e.0), e.1)) =~= m.drop_last());
        assert(m.last() == (f(s.last().0), s.last().1));
    }
}

/// Every entry of an insertion is the new entry or one of the old ones.
pub proof fn lemma_insert_desc_elems<T>(s: Seq<(T, u64)>, x: (T, u64))
    ensures
        forall|i: int|
            0 <= i < insert_desc(s, x).len() ==> (#[trigger] insert_desc(s, x)[i] == x || exists|
                j: int,
            | 0 <= j < s.len() && insert_desc(s, x)[i] == #[trigger] s[j]),
    decreases s.len(),
{
    let r = insert_desc(s, x);
    if s.len() == 0 {
    } else if s[0].1 >= x.1 {
        lemma_insert_desc_elems(s.drop_first(), x);
        let r2 = insert_desc(s.drop_first(), x);
        assert forall|i: int| 0 <= i < r.len() implies (#[trigger] r[i] == x || exists|j: int|
            0 <= j < s.len() && r[i] == #[trigger] s[j]) by {
            if i == 0 {
                assert(r[0] == s[0]);
            } else {
                assert(r[i] == r2[i - 1]);
                if r2[i - 1] == x {
                } else {
                    let w = choose|w: int| 0 <= w < s.drop_first().len() && r2[i - 1]
                        == s.drop_first()[w];
                    assert(s.drop_first()[w] == s[w + 1]);
                }
            }
        }
    } else {
        assert forall|i: int| 0 <= i < r.len() implies (#[trigger] r[i] == x || exists|j: int|
            0 <= j < s.len() && r[i] == #[trigger] s[j]) by {
            if i > 0 {
                assert(r[i] == s[i - 1]);
            }
        }
    }
}

/// Every entry of the sorted list is one of the input's entries.
pub proof fn lemma_sort_desc_elems<T>(s: Seq<(T, u64)>)
    ensures
        forall|i: int|
            0 <= i < sort_desc(s).len() ==> exists|j: int|
                0 <= j < s.len() && #[trigger] sort_desc(s)[i] == #[trigger] s[j],
    decreases s.len(),
{
    if s.len() > 0 {
        let s2 = s.drop_last();
        lemma_sort_desc_elems(s2);
        lemma_insert_desc_elems(sort_desc(s2), s.last());
        let r = sort_desc(s);
        assert forall|i: int| 0 <= i < r.len() implies exists|j: int|
            0 <= j < s.len() && #[trigger] r[i] == #[trigger] s[j] by {
            if r[i] == s.last() {
                assert(r[i] == s[s.len() - 1]);
            } else {
                let w = choose|w: int| 0 <= w < sort_desc(s2).len() && r[i] == sort_desc(s2)[w];
                let w2 = choose|j: int| 0 <= j < s2.len() && sort_desc(s2)[w] == s2[j];
                assert(s2[w2] == s[w2]);
            }
        }
    }
}

/// Where the scan of the sorted prefix stops, `insert_desc` places the entry.
proof fn lemma_insert_desc_at<T>(s: Seq<(T, u64)>, x: (T, u64), pos: int)
    requires
        sorted_desc(s),
        0 <= pos <= s.len(),
        forall|k: int| 0 <= k < pos ==> s[k].1 >= x.1,
        pos < s.len() ==> s[pos].1 < x.1,
    ensures
        insert_desc(s, x) == s.insert(pos, x),
    decreases s.len(),
{
    if pos == 0 {
        if s.len() == 0 {
            assert(insert_desc(s, x) =~= s.insert(0, x));
        } else {
            assert(s[0].1 < x.1);
            assert(seq![x] + s =~= s.insert(0, x));
        }
    } else {
        let s2 = s.drop_first();
        assert(forall|i: int, j: int| 0 <= i < j < s2.len() ==> s2[i].1 >= s2[j].1);
        assert(forall|k: int| 0 <= k < pos - 1 ==> s2[k].1 >= x.1);
        lemma_insert_desc_at(s2, x, pos - 1);
        assert(seq![s[0]] + s2.insert(pos - 1, x) =~= s.insert(pos, x));
    }
}

/// Sorts entries by stamp, descending; equal stamps keep their input order.
pub fn sort_desc_by_stamp<T>(v: Vec<(T, u64)>) -> (r: Vec<(T, u64)>)
    ensures
        r@ == sort_desc(v@),
        sorted_desc(r@),
        r@.len() == v@.len(),
{
    let ghost g = v@;
    let mut v = v;
    let mut out: Vec<(T, u64)> = Vec::new();
    proof {
        assert(g.take(0) =~= Seq::<(T, u64)>::empty());
        assert(v@ =~= g.skip(0));
        let dummy: u64 = 0;
        lemma_sort_desc(g.take(0), dummy);
    }
    while v.len() > 0
        invariant
            v@.len() <= g.len(),
            v@ == g.skip(g.len() - v@.len()),
            out@ == sort_desc(g.take(g.len() - v@.len())),
            sorted_desc(out@),
        decreases v@.len(),
    {
        let ghost done = g.len() - v@.len();
        let x = v.remove(0);
        proof {
            assert(x == g[done]);
            assert(v@ =~= g.skip(done + 1));
        }
        let mut pos: usize = 0;
        while pos < out.len() && out[pos].1 >= x.1
            invariant
                pos <= out@.len(),
                forall|k: int| 0 <= k < pos ==> out@[k].1 >= x.1,
            decreases out@.len() - pos,
        {
            pos = pos + 1;
        }
        proof {
            lemma_insert_desc_at(out@, x, pos as int);
            let dummy: u64 = 0;
            lemma_insert_desc(out@, x, dummy);
            assert(g.take(done + 1).drop_last() =~= g.take(done));
            assert(g.take(done + 1).last() == g[done]);
        }
        out.insert(pos, x);
    }
    proof {
        assert(g.take(g.len() as int) =~= g);
        let dummy: u64 = 0;
        lemma_sort_desc(g, dummy);
    }
    out
}

} // verus!
