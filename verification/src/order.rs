//! Sorting by rank, then text, then position.

use vstd::multiset::Multiset;
use vstd::prelude::*;
use vstd::relations::{sorted_by, total_ordering};

use crate::text::{precedes, same, text_less};

verus! {

broadcast use crate::model::group_views;

/// What something is sorted by.
pub struct Row {
    pub rank: i128,
    pub text: String,
    pub index: usize,
}

/// Model of [`Row`].
pub struct RowV {
    pub rank: int,
    pub text: Seq<char>,
    pub index: int,
}

impl DeepView for Row {
    type V = RowV;

    open spec fn deep_view(&self) -> RowV {
        RowV { rank: self.rank as int, text: self.text@, index: self.index as int }
    }
}

/// `a` does not stand behind `b`.
pub open spec fn row_leq(a: RowV, b: RowV) -> bool {
    a.rank < b.rank || (a.rank == b.rank && (text_less(a.text, b.text) || (a.text == b.text
        && a.index <= b.index)))
}

/// The order of rows.
pub open spec fn row_order() -> spec_fn(RowV, RowV) -> bool {
    |a: RowV, b: RowV| row_leq(a, b)
}

/// `rows` in their order.
pub open spec fn sorted_rows(rows: Seq<RowV>) -> Seq<RowV> {
    rows.sort_by(row_order())
}

proof fn lemma_text_irreflexive(a: Seq<char>)
    ensures
        !text_less(a, a),
    decreases a.len(),
{
    if a.len() > 0 {
        lemma_text_irreflexive(a.drop_first());
    }
}

proof fn lemma_text_transitive(a: Seq<char>, b: Seq<char>, c: Seq<char>)
    requires
        text_less(a, b),
        text_less(b, c),
    ensures
        text_less(a, c),
    decreases a.len(),
{
    if a.len() > 0 && b.len() > 0 && c.len() > 0 && a[0] == b[0] && b[0] == c[0] {
        lemma_text_transitive(a.drop_first(), b.drop_first(), c.drop_first());
    }
}

proof fn lemma_text_connected(a: Seq<char>, b: Seq<char>)
    ensures
        a == b || text_less(a, b) || text_less(b, a),
    decreases a.len(),
{
    if a.len() > 0 && b.len() > 0 && a[0] == b[0] {
        lemma_text_connected(a.drop_first(), b.drop_first());
        if a.drop_first() == b.drop_first() {
            assert(a.len() == a.drop_first().len() + 1);
            assert(b.len() == b.drop_first().len() + 1);
            assert forall|i: int| 0 <= i < a.len() implies a[i] == b[i] by {
                if i > 0 {
                    assert(a[i] == a.drop_first()[i - 1]);
                    assert(b[i] == b.drop_first()[i - 1]);
                }
            }
            assert(a =~= b);
        }
    } else if a.len() == 0 && b.len() == 0 {
        assert(a =~= b);
    }
}

proof fn lemma_row_order()
    ensures
        total_ordering(row_order()),
{
    let r = row_order();
    assert forall|a: RowV, b: RowV| #[trigger] r(a, b) && #[trigger] r(b, a) implies a == b by {
        if a.rank == b.rank && a.text != b.text {
            lemma_text_transitive(a.text, b.text, a.text);
            lemma_text_irreflexive(a.text);
        } else if a.rank == b.rank {
            lemma_text_irreflexive(a.text);
        }
    }
    assert forall|a: RowV, b: RowV, c: RowV| #[trigger] r(a, b) && #[trigger] r(b, c) implies r(
        a,
        c,
    ) by {
        if a.rank == b.rank && b.rank == c.rank && text_less(a.text, b.text) && text_less(
            b.text,
            c.text,
        ) {
            lemma_text_transitive(a.text, b.text, c.text);
        }
    }
    assert forall|a: RowV, b: RowV| #[trigger] r(a, b) || #[trigger] r(b, a) by {
        lemma_text_connected(a.text, b.text);
    }
}

/// The rows at `order`.
pub open spec fn picked(rows: Seq<RowV>, order: Seq<usize>) -> Seq<RowV> {
    Seq::new(order.len(), |i: int| rows[order[i] as int])
}

/// Every element of `order` is the index of a row.
pub open spec fn within(order: Seq<usize>, len: nat) -> bool {
    forall|i: int| 0 <= i < order.len() ==> (#[trigger] order[i]) < len
}

fn leq(a: &Row, b: &Row) -> (r: bool)
    ensures
        r == row_leq(a.deep_view(), b.deep_view()),
{
    a.rank < b.rank || (a.rank == b.rank && (precedes(a.text.as_str(), b.text.as_str()) || (same(
        a.text.as_str(),
        b.text.as_str(),
    ) && a.index <= b.index)))
}

/// Merges two sorted selections.
fn merge(rows: &Vec<Row>, a: &Vec<usize>, b: &Vec<usize>) -> (out: Vec<usize>)
    requires
        within(a@, rows@.len()),
        within(b@, rows@.len()),
        sorted_by(picked(rows.deep_view(), a@), row_order()),
        sorted_by(picked(rows.deep_view(), b@), row_order()),
    ensures
        within(out@, rows@.len()),
        sorted_by(picked(rows.deep_view(), out@), row_order()),
        picked(rows.deep_view(), out@).to_multiset() == picked(
            rows.deep_view(),
            a@,
        ).to_multiset().add(picked(rows.deep_view(), b@).to_multiset()),
{
    let ghost v = rows.deep_view();
    let ghost pa = picked(v, a@);
    let ghost pb = picked(v, b@);
    let ghost r = row_order();
    let mut out: Vec<usize> = Vec::new();
    let mut i: usize = 0;
    let mut j: usize = 0;
    proof {
        lemma_row_order();
        broadcast use vstd::seq_lib::group_to_multiset_ensures;

        assert(picked(v, out@) =~= Seq::empty());
        assert(pa.take(0) =~= Seq::empty());
        assert(pb.take(0) =~= Seq::empty());
        assert(Multiset::<RowV>::empty().add(Multiset::empty()) =~= Multiset::empty());
    }
    while i < a.len() || j < b.len()
        invariant
            v == rows.deep_view(),
            v.len() == rows@.len(),
            pa == picked(v, a@),
            pb == picked(v, b@),
            r == row_order(),
            total_ordering(r),
            within(a@, rows@.len()),
            within(b@, rows@.len()),
            within(out@, rows@.len()),
            sorted_by(pa, r),
            sorted_by(pb, r),
            i <= a@.len(),
            j <= b@.len(),
            sorted_by(picked(v, out@), r),
            picked(v, out@).to_multiset() == pa.take(i as int).to_multiset().add(
                pb.take(j as int).to_multiset(),
            ),
            forall|x: int, y: int|
                0 <= x < out@.len() && i <= y < a@.len() ==> row_leq(
                    #[trigger] picked(v, out@)[x],
                    #[trigger] pa[y],
                ),
            forall|x: int, y: int|
                0 <= x < out@.len() && j <= y < b@.len() ==> row_leq(
                    #[trigger] picked(v, out@)[x],
                    #[trigger] pb[y],
                ),
        decreases a@.len() - i + b@.len() - j,
    {
        let ghost before = picked(v, out@);
        let from_a = if i == a.len() {
            false
        } else if j == b.len() {
            true
        } else {
            assert(v[a@[i as int] as int] == rows@[a@[i as int] as int].deep_view());
            assert(v[b@[j as int] as int] == rows@[b@[j as int] as int].deep_view());
            leq(&rows[a[i]], &rows[b[j]])
        };
        if from_a {
            let x: usize = a[i];
            out.push(x);
            proof {
                broadcast use vstd::seq_lib::group_to_multiset_ensures;

                let now = picked(v, out@);
                assert(now =~= before.push(pa[i as int]));
                assert(pa.take(i + 1) =~= pa.take(i as int).push(pa[i as int]));
                assert(now.to_multiset() =~= pa.take(i + 1).to_multiset().add(
                    pb.take(j as int).to_multiset(),
                ));
                assert forall|p: int, q: int| 0 <= p < q < now.len() implies #[trigger] r(
                    now[p],
                    now[q],
                ) by {
                    if q < before.len() {
                        assert(r(before[p], before[q]));
                    } else {
                        assert(row_leq(before[p], pa[i as int]));
                    }
                }
                assert forall|p: int, q: int| 0 <= p < now.len() && i + 1 <= q < a@.len() implies row_leq(
                    #[trigger] now[p],
                    #[trigger] pa[q],
                ) by {
                    if p == before.len() {
                        assert(r(pa[i as int], pa[q]));
                    }
                }
                assert forall|p: int, q: int| 0 <= p < now.len() && j <= q < b@.len() implies row_leq(
                    #[trigger] now[p],
                    #[trigger] pb[q],
                ) by {
                    if p == before.len() {
                        assert(r(pa[i as int], pb[j as int]));
                        if q > j {
                            assert(r(pb[j as int], pb[q]));
                            assert(r(pa[i as int], pb[q]));
                        }
                    }
                }
            }
            i += 1;
        } else {
            let x: usize = b[j];
            out.push(x);
            proof {
                broadcast use vstd::seq_lib::group_to_multiset_ensures;

                let now = picked(v, out@);
                assert(now =~= before.push(pb[j as int]));
                assert(pb.take(j + 1) =~= pb.take(j as int).push(pb[j as int]));
                assert(now.to_multiset() =~= pa.take(i as int).to_multiset().add(
                    pb.take(j + 1).to_multiset(),
                ));
                assert forall|p: int, q: int| 0 <= p < q < now.len() implies #[trigger] r(
                    now[p],
                    now[q],
                ) by {
                    if q < before.len() {
                        assert(r(before[p], before[q]));
                    } else {
                        assert(row_leq(before[p], pb[j as int]));
                    }
                }
                assert forall|p: int, q: int| 0 <= p < now.len() && j + 1 <= q < b@.len() implies row_leq(
                    #[trigger] now[p],
                    #[trigger] pb[q],
                ) by {
                    if p == before.len() {
                        assert(r(pb[j as int], pb[q]));
                    }
                }
                assert forall|p: int, q: int| 0 <= p < now.len() && i <= q < a@.len() implies row_leq(
                    #[trigger] now[p],
                    #[trigger] pa[q],
                ) by {
                    if p == before.len() {
                        assert(r(pa[i as int], pb[j as int]) || r(pb[j as int], pa[i as int]));
                        assert(r(pb[j as int], pa[i as int]));
                        if q > i {
                            assert(r(pa[i as int], pa[q]));
                            assert(r(pb[j as int], pa[q]));
                        }
                    }
                }
            }
            j += 1;
        }
    }
    assert(pa.take(i as int) =~= pa);
    assert(pb.take(j as int) =~= pb);
    out
}

/// Sorts the rows from `from` up to `to`.
fn sort_span(rows: &Vec<Row>, from: usize, to: usize) -> (out: Vec<usize>)
    requires
        from <= to <= rows@.len(),
    ensures
        within(out@, rows@.len()),
        sorted_by(picked(rows.deep_view(), out@), row_order()),
        picked(rows.deep_view(), out@).to_multiset() == rows.deep_view().subrange(
            from as int,
            to as int,
        ).to_multiset(),
    decreases to - from,
{
    let ghost v = rows.deep_view();
    if to - from <= 1 {
        let mut out: Vec<usize> = Vec::new();
        if to - from == 1 {
            out.push(from);
        }
        assert(picked(v, out@) =~= v.subrange(from as int, to as int));
        out
    } else {
        let mid: usize = from + (to - from) / 2;
        let a = sort_span(rows, from, mid);
        let b = sort_span(rows, mid, to);
        let out = merge(rows, &a, &b);
        proof {
            let x = v.subrange(from as int, mid as int);
            let y = v.subrange(mid as int, to as int);
            assert(v.subrange(from as int, to as int) =~= x + y);
            vstd::seq_lib::lemma_multiset_commutative(x, y);
        }
        out
    }
}

/// The indices of `rows` in the order of the rows.
pub fn sort_rows(rows: &Vec<Row>) -> (out: Vec<usize>)
    ensures
        out@.len() == rows@.len(),
        within(out@, rows@.len()),
        picked(rows.deep_view(), out@) == sorted_rows(rows.deep_view()),
{
    let ghost v = rows.deep_view();
    let out = sort_span(rows, 0, rows.len());
    proof {
        assert(v.subrange(0, v.len() as int) =~= v);
        lemma_row_order();
        v.lemma_sort_by_ensures(row_order());
        vstd::seq_lib::lemma_sorted_unique(picked(v, out@), v.sort_by(row_order()), row_order());
        v.to_multiset_ensures();
        picked(v, out@).to_multiset_ensures();
    }
    out
}

/// Sorting keeps the rows and puts them in order.
pub proof fn law_sorted_rows(rows: Seq<RowV>)
    ensures
        sorted_rows(rows).to_multiset() == rows.to_multiset(),
        sorted_rows(rows).len() == rows.len(),
        forall|i: int, j: int|
            0 <= i < j < sorted_rows(rows).len() ==> row_leq(
                #[trigger] sorted_rows(rows)[i],
                #[trigger] sorted_rows(rows)[j],
            ),
{
    lemma_row_order();
    rows.lemma_sort_by_ensures(row_order());
    rows.to_multiset_ensures();
    sorted_rows(rows).to_multiset_ensures();
    let s = sorted_rows(rows);
    assert forall|i: int, j: int| 0 <= i < j < s.len() implies row_leq(
        #[trigger] s[i],
        #[trigger] s[j],
    ) by {
        assert(row_order()(s[i], s[j]));
    }
}

} // verus!
