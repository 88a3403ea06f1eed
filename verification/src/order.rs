//! The orders in which articles are listed, and a stable sort of article
//! positions by them.
use vstd::prelude::*;

use crate::model::{Article, ArticleView, article_views};
use crate::text::{
    chars_eq, chars_lt, chars_of, lemma_seq_lt_asymmetric, lemma_seq_lt_irreflexive,
    lemma_seq_lt_total, lemma_seq_lt_transitive, seq_lt,
};

verus! {

/// How a list of articles is ordered.
#[derive(Clone, Copy, Debug, PartialEq, Eq)]
pub enum SortOrder {
    /// Most recently updated first (the default).
    UpdatedDesc,
    /// Most recently created first.
    CreatedDesc,
    /// By title, ascending.
    TitleAsc,
}

/// The sort order that a query's `sort` value names; anything unknown
/// falls back to the newest update first.
pub open spec fn sort_order_of(sort: Seq<char>) -> SortOrder {
    if sort == "created-desc"@ {
        SortOrder::CreatedDesc
    } else if sort == "title-asc"@ {
        SortOrder::TitleAsc
    } else {
        SortOrder::UpdatedDesc
    }
}

pub fn sort_order(sort: &str) -> (o: SortOrder)
    ensures
        o == sort_order_of(sort@),
{
    if crate::text::text_eq(sort, "created-desc") {
        SortOrder::CreatedDesc
    } else if crate::text::text_eq(sort, "title-asc") {
        SortOrder::TitleAsc
    } else {
        SortOrder::UpdatedDesc
    }
}

/// The text that an order compares first.
pub open spec fn primary_key(a: ArticleView, o: SortOrder) -> Seq<char> {
    match o {
        SortOrder::UpdatedDesc => a.updated_at,
        SortOrder::CreatedDesc => a.created_at,
        SortOrder::TitleAsc => a.title,
    }
}

/// Whether `a` comes strictly before `b` in order `o`: by the primary text
/// (descending for dates, ascending for titles), then by id ascending.
pub open spec fn precedes(a: ArticleView, b: ArticleView, o: SortOrder) -> bool {
    let (ka, kb) = (primary_key(a, o), primary_key(b, o));
    if o == SortOrder::TitleAsc {
        seq_lt(ka, kb) || (ka == kb && seq_lt(a.id, b.id))
    } else {
        seq_lt(kb, ka) || (ka == kb && seq_lt(a.id, b.id))
    }
}

/// The `sort` values name their orders: `created-desc` the newest creation
/// first, `title-asc` titles ascending, and every other value the newest
/// update first.
pub proof fn lemma_sort_order_names(sort: Seq<char>)
    ensures
        sort == "created-desc"@ ==> sort_order_of(sort) == SortOrder::CreatedDesc,
        sort == "title-asc"@ ==> sort_order_of(sort) == SortOrder::TitleAsc,
        sort != "created-desc"@ && sort != "title-asc"@ ==> sort_order_of(sort)
            == SortOrder::UpdatedDesc,
{
    reveal_strlit("title-asc");
    reveal_strlit("created-desc");
    assert("title-asc"@.len() != "created-desc"@.len());
}

/// What each order puts first: a later update date, a later creation date
/// or a smaller title; among articles level on that text, the smaller id.
pub proof fn lemma_precedes_meaning(a: ArticleView, b: ArticleView)
    ensures
        precedes(a, b, SortOrder::UpdatedDesc) <==> (seq_lt(b.updated_at, a.updated_at) || (
        a.updated_at == b.updated_at && seq_lt(a.id, b.id))),
        precedes(a, b, SortOrder::CreatedDesc) <==> (seq_lt(b.created_at, a.created_at) || (
        a.created_at == b.created_at && seq_lt(a.id, b.id))),
        precedes(a, b, SortOrder::TitleAsc) <==> (seq_lt(a.title, b.title) || (a.title == b.title
            && seq_lt(a.id, b.id))),
{
}

pub proof fn lemma_precedes_irreflexive(a: ArticleView, o: SortOrder)
    ensures
        !precedes(a, a, o),
{
    lemma_seq_lt_irreflexive(primary_key(a, o));
    lemma_seq_lt_irreflexive(a.id);
}

pub proof fn lemma_precedes_asymmetric(a: ArticleView, b: ArticleView, o: SortOrder)
    ensures
        !(precedes(a, b, o) && precedes(b, a, o)),
{
    lemma_seq_lt_asymmetric(primary_key(a, o), primary_key(b, o));
    lemma_seq_lt_asymmetric(a.id, b.id);
    lemma_seq_lt_irreflexive(primary_key(a, o));
}

/// `x` before `y`, and `z` not before `y`, puts `x` before `z`.
pub proof fn lemma_precedes_then_not_after(
    x: ArticleView,
    y: ArticleView,
    z: ArticleView,
    o: SortOrder,
)
    requires
        precedes(x, y, o),
        !precedes(z, y, o),
    ensures
        precedes(x, z, o),
{
    let (kx, ky, kz) = (primary_key(x, o), primary_key(y, o), primary_key(z, o));
    lemma_seq_lt_total(ky, kz);
    lemma_seq_lt_total(y.id, z.id);
    if seq_lt(kz, ky) && seq_lt(ky, kx) {
        lemma_seq_lt_transitive(kz, ky, kx);
    }
    if seq_lt(kx, ky) && seq_lt(ky, kz) {
        lemma_seq_lt_transitive(kx, ky, kz);
    }
    if seq_lt(x.id, y.id) && seq_lt(y.id, z.id) {
        lemma_seq_lt_transitive(x.id, y.id, z.id);
    }
}

/// Whether the article at position `i` of `all` is listed before the one
/// at position `j`: by the order, and by position among articles that the
/// order puts level (a stable sort).
pub open spec fn ranks_before(all: Seq<ArticleView>, o: SortOrder, i: int, j: int) -> bool {
    precedes(all[i], all[j], o) || (!precedes(all[j], all[i], o) && i < j)
}

/// `p` lists exactly the positions `i` of `all` with `keep[i]`, each once,
/// in the order `o`, ties kept in their given order.
pub open spec fn is_listing(
    all: Seq<ArticleView>,
    keep: Seq<bool>,
    o: SortOrder,
    p: Seq<int>,
) -> bool {
    &&& forall|k: int| 0 <= k < p.len() ==> 0 <= #[trigger] p[k] < all.len() && keep[p[k]]
    &&& forall|i: int|
        0 <= i < all.len() && #[trigger] keep[i] ==> exists|k: int|
            0 <= k < p.len() && #[trigger] p[k] == i
    &&& forall|k: int, l: int| 0 <= k < l < p.len() ==> ranks_before(all, o, #[trigger] p[k], #[trigger] p[l])
}

/// The positions as integers.
pub open spec fn positions(p: Seq<usize>) -> Seq<int> {
    p.map_values(|i: usize| i as int)
}

/// Whether article `a` comes strictly before `b` in order `o`.
pub fn article_precedes(a: &Article, b: &Article, o: SortOrder) -> (r: bool)
    ensures
        r == precedes(a@, b@, o),
{
    let (ka, kb) = match o {
        SortOrder::UpdatedDesc => (chars_of(a.updated_at.as_str()), chars_of(b.updated_at.as_str())),
        SortOrder::CreatedDesc => (chars_of(a.created_at.as_str()), chars_of(b.created_at.as_str())),
        SortOrder::TitleAsc => (chars_of(a.title.as_str()), chars_of(b.title.as_str())),
    };
    let first = match o {
        SortOrder::TitleAsc => chars_lt(&ka, &kb),
        _ => chars_lt(&kb, &ka),
    };
    if first {
        true
    } else if chars_eq(&ka, &kb) {
        let ia = chars_of(a.id.as_str());
        let ib = chars_of(b.id.as_str());
        chars_lt(&ia, &ib)
    } else {
        false
    }
}

/// The positions of the kept articles, in order `o`; articles that the
/// order puts level keep their given order.
pub fn sorted_positions(all: &Vec<Article>, keep: &Vec<bool>, o: SortOrder) -> (p: Vec<usize>)
    requires
        keep.len() == all.len(),
    ensures
        is_listing(article_views(all@), keep@, o, positions(p@)),
{
    let ghost views = article_views(all@);
    let mut order: Vec<usize> = Vec::new();
    let mut i: usize = 0;
    while i < all.len()
        invariant
            i <= all.len(),
            keep.len() == all.len(),
            views == article_views(all@),
            forall|k: int|
                0 <= k < order.len() ==> #[trigger] order@[k] < i && keep@[order@[k] as int],
            forall|j: int|
                0 <= j < i && #[trigger] keep@[j] ==> exists|k: int|
                    0 <= k < order.len() && #[trigger] order@[k] == j,
            forall|k: int, l: int|
                0 <= k < l < order.len() ==> ranks_before(
                    views,
                    o,
                    #[trigger] order@[k] as int,
                    #[trigger] order@[l] as int,
                ),
        decreases all.len() - i,
    {
        if keep[i] {
            let mut pos: usize = 0;
            while pos < order.len() && !article_precedes(&all[i], &all[order[pos]], o)
                invariant
                    pos <= order.len(),
                    i < all.len(),
                    views == article_views(all@),
                    forall|k: int| 0 <= k < order.len() ==> #[trigger] order@[k] < i,
                    forall|m: int|
                        0 <= m < pos ==> !precedes(views[i as int], views[#[trigger] order@[m] as int], o),
                decreases order.len() - pos,
            {
                pos = pos + 1;
            }
            let ghost old_order = order@;
            proof {
                assert forall|l: int| pos <= l < old_order.len() implies precedes(
                    views[i as int],
                    views[#[trigger] old_order[l] as int],
                    o,
                ) by {
                    if l > pos {
                        let y = old_order[pos as int] as int;
                        let z = old_order[l] as int;
                        assert(ranks_before(views, o, y, z));
                        if precedes(views[y], views[z], o) {
                            lemma_precedes_asymmetric(views[y], views[z], o);
                        }
                        lemma_precedes_then_not_after(views[i as int], views[y], views[z], o);
                    }
                }
            }
            order.insert(pos, i);
            proof {
                assert forall|k: int, l: int| 0 <= k < l < order.len() implies ranks_before(
                    views,
                    o,
                    #[trigger] order@[k] as int,
                    #[trigger] order@[l] as int,
                ) by {
                    if l < pos {
                        assert(order@[k] == old_order[k] && order@[l] == old_order[l]);
                    } else if l == pos {
                        assert(order@[k] == old_order[k]);
                    } else if k < pos {
                        assert(order@[k] == old_order[k] && order@[l] == old_order[l - 1]);
                    } else if k == pos {
                        assert(order@[l] == old_order[l - 1]);
                    } else {
                        assert(order@[k] == old_order[k - 1] && order@[l] == old_order[l - 1]);
                    }
                }
                assert forall|j: int| 0 <= j < i + 1 && #[trigger] keep@[j] implies exists|k: int|
                    0 <= k < order.len() && #[trigger] order@[k] == j by {
                    if j == i {
                        assert(order@[pos as int] == i);
                    } else {
                        let k0 = choose|k: int| 0 <= k < old_order.len() && #[trigger] old_order[k] == j;
                        if k0 < pos {
                            assert(order@[k0] == j);
                        } else {
                            assert(order@[k0 + 1] == j);
                        }
                    }
                }
                assert forall|k: int| 0 <= k < order.len() implies #[trigger] order@[k] < i + 1
                    && keep@[order@[k] as int] by {
                    if k < pos {
                        assert(order@[k] == old_order[k]);
                    } else if k > pos {
                        assert(order@[k] == old_order[k - 1]);
                    }
                }
            }
        } else {
            proof {
                assert forall|j: int| 0 <= j < i + 1 && #[trigger] keep@[j] implies exists|k: int|
                    0 <= k < order.len() && #[trigger] order@[k] == j by {
                    assert(j < i);
                }
            }
        }
        i = i + 1;
    }
    proof {
        let p = positions(order@);
        assert forall|k: int, l: int| 0 <= k < l < p.len() implies ranks_before(
            views,
            o,
            #[trigger] p[k],
            #[trigger] p[l],
        ) by {
            assert(p[k] == order@[k] as int && p[l] == order@[l] as int);
        }
        assert forall|j: int| 0 <= j < views.len() && #[trigger] keep@[j] implies exists|k: int|
            0 <= k < p.len() && #[trigger] p[k] == j by {
            let k0 = choose|k: int| 0 <= k < order.len() && #[trigger] order@[k] == j;
            assert(p[k0] == j);
        }
    }
    order
}

} // verus!

verus! {

/// `p` lists the positions of the set `s`, each once, in the rank order.
spec fn enumerates(all: Seq<ArticleView>, o: SortOrder, s: Set<int>, p: Seq<int>) -> bool {
    &&& forall|k: int| 0 <= k < p.len() ==> s.contains(#[trigger] p[k])
    &&& forall|i: int| s.contains(i) ==> exists|k: int| 0 <= k < p.len() && #[trigger] p[k] == i
    &&& forall|k: int, l: int|
        0 <= k < l < p.len() ==> ranks_before(all, o, #[trigger] p[k], #[trigger] p[l])
}

proof fn lemma_ranks_before_strict(all: Seq<ArticleView>, o: SortOrder, i: int, j: int)
    requires
        0 <= i < all.len(),
        0 <= j < all.len(),
    ensures
        !ranks_before(all, o, i, i),
        !(ranks_before(all, o, i, j) && ranks_before(all, o, j, i)),
{
    lemma_precedes_irreflexive(all[i], o);
    lemma_precedes_asymmetric(all[i], all[j], o);
}

proof fn lemma_enumeration_unique(
    all: Seq<ArticleView>,
    o: SortOrder,
    s: Set<int>,
    p1: Seq<int>,
    p2: Seq<int>,
)
    requires
        forall|i: int| s.contains(i) ==> 0 <= i < all.len(),
        enumerates(all, o, s, p1),
        enumerates(all, o, s, p2),
    ensures
        p1 == p2,
    decreases p1.len(),
{
    if p1.len() == 0 {
        if p2.len() > 0 {
            assert(s.contains(p2[0]));
        }
        assert(p1 =~= p2);
    } else {
        let x = p1[0];
        assert(s.contains(x));
        let l = choose|l: int| 0 <= l < p2.len() && #[trigger] p2[l] == x;
        if l > 0 {
            let y = p2[0];
            assert(s.contains(y));
            let k = choose|k: int| 0 <= k < p1.len() && #[trigger] p1[k] == y;
            assert(ranks_before(all, o, p2[0], p2[l]));
            lemma_ranks_before_strict(all, o, x, y);
            if k == 0 {
                assert(ranks_before(all, o, y, y));
            } else {
                assert(ranks_before(all, o, p1[0], p1[k]));
            }
        }
        let s2 = s.remove(x);
        let q1 = p1.drop_first();
        let q2 = p2.drop_first();
        assert forall|k: int| 0 <= k < q1.len() implies s2.contains(#[trigger] q1[k]) by {
            assert(ranks_before(all, o, p1[0], p1[k + 1]));
            lemma_ranks_before_strict(all, o, x, x);
        }
        assert forall|k: int| 0 <= k < q2.len() implies s2.contains(#[trigger] q2[k]) by {
            assert(ranks_before(all, o, p2[0], p2[k + 1]));
            lemma_ranks_before_strict(all, o, x, x);
        }
        assert forall|i: int| s2.contains(i) implies exists|k: int|
            0 <= k < q1.len() && #[trigger] q1[k] == i by {
            let k = choose|k: int| 0 <= k < p1.len() && #[trigger] p1[k] == i;
            assert(q1[k - 1] == i);
        }
        assert forall|i: int| s2.contains(i) implies exists|k: int|
            0 <= k < q2.len() && #[trigger] q2[k] == i by {
            let k = choose|k: int| 0 <= k < p2.len() && #[trigger] p2[k] == i;
            assert(q2[k - 1] == i);
        }
        assert forall|k: int, m: int| 0 <= k < m < q1.len() implies ranks_before(
            all,
            o,
            #[trigger] q1[k],
            #[trigger] q1[m],
        ) by {
            assert(q1[k] == p1[k + 1] && q1[m] == p1[m + 1]);
        }
        assert forall|k: int, m: int| 0 <= k < m < q2.len() implies ranks_before(
            all,
            o,
            #[trigger] q2[k],
            #[trigger] q2[m],
        ) by {
            assert(q2[k] == p2[k + 1] && q2[m] == p2[m + 1]);
        }
        lemma_enumeration_unique(all, o, s2, q1, q2);
        assert(p1 =~= seq![x] + q1);
        assert(p2 =~= seq![x] + q2);
    }
}

/// A listing is determined by what it lists and the order: two listings of
/// the same kept articles in the same order are the same.
pub proof fn lemma_listing_unique(
    all: Seq<ArticleView>,
    keep: Seq<bool>,
    o: SortOrder,
    p1: Seq<int>,
    p2: Seq<int>,
)
    requires
        keep.len() == all.len(),
        is_listing(all, keep, o, p1),
        is_listing(all, keep, o, p2),
    ensures
        p1 == p2,
{
    let s = Set::new(|i: int| 0 <= i < all.len() && keep[i]);
    assert(enumerates(all, o, s, p1));
    assert(enumerates(all, o, s, p2));
    lemma_enumeration_unique(all, o, s, p1, p2);
}

/// A listing names no position twice, so it is never longer than the list.
pub proof fn lemma_listing_length(all: Seq<ArticleView>, keep: Seq<bool>, o: SortOrder, p: Seq<int>)
    requires
        keep.len() == all.len(),
        is_listing(all, keep, o, p),
    ensures
        p.len() <= all.len(),
        forall|k: int, l: int| 0 <= k < l < p.len() ==> p[k] != p[l],
{
    assert forall|k: int, l: int| 0 <= k < l < p.len() implies p[k] != p[l] by {
        assert(ranks_before(all, o, p[k], p[l]));
        lemma_precedes_irreflexive(all[p[k]], o);
    }
    let s = p.to_set();
    assert(p.no_duplicates());
    p.unique_seq_to_set();
    let full = Set::new(|i: int| 0 <= i < all.len());
    assert(s.subset_of(full));
    vstd::set_lib::lemma_int_range(0, all.len() as int);
    assert(full =~= vstd::set_lib::set_int_range(0, all.len() as int));
    vstd::set_lib::lemma_len_subset(s, full);
}

} // verus!

verus! {

/// Two articles that neither order puts first have the same id.
pub proof fn lemma_level_same_id(a: ArticleView, b: ArticleView, o: SortOrder)
    requires
        !precedes(a, b, o),
        !precedes(b, a, o),
    ensures
        a.id == b.id,
{
    lemma_seq_lt_total(primary_key(a, o), primary_key(b, o));
    lemma_seq_lt_total(a.id, b.id);
}

} // verus!
