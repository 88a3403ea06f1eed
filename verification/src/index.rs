//! Building the published index from the article records.
use vstd::prelude::*;

use crate::validate::{ValidationError, collection_fault, validate_collection};
use crate::model::{Article, ArticleFacets, ArticleIndex, ArticleView, article_views};
use crate::order::{
    SortOrder, is_listing, precedes, positions, ranks_before, sorted_positions,
};
use crate::text::{
    chars_eq, chars_lt, chars_of, extend_str, lemma_seq_lt_asymmetric, lemma_seq_lt_irreflexive,
    lemma_seq_lt_total, lemma_seq_lt_transitive, seq_lt, string_of, views,
};

verus! {

/// The time stamp of an index that holds no article.
pub const EMPTY_GENERATED_AT: &'static str = "1970-01-01T00:00:00Z";

/// The time of day appended to the latest update date.
pub const GENERATED_TIME: &'static str = "T00:00:00Z";

/// `list` holds each text for which `has` holds, once, in ascending order.
pub open spec fn is_facet_list(list: Seq<Seq<char>>, has: spec_fn(Seq<char>) -> bool) -> bool {
    &&& forall|i: int, j: int| 0 <= i < j < list.len() ==> seq_lt(#[trigger] list[i], #[trigger] list[j])
    &&& forall|x: Seq<char>| list.contains(x) <==> has(x)
}

/// Some article has genre `x`.
pub open spec fn has_genre(all: Seq<ArticleView>, x: Seq<char>) -> bool {
    exists|i: int| 0 <= i < all.len() && #[trigger] all[i].genre == x
}

/// Some article comes from source `x`.
pub open spec fn has_source(all: Seq<ArticleView>, x: Seq<char>) -> bool {
    exists|i: int| 0 <= i < all.len() && #[trigger] all[i].source == x
}

/// Some article lists technology `x`.
pub open spec fn has_technology(all: Seq<ArticleView>, x: Seq<char>) -> bool {
    exists|i: int| 0 <= i < all.len() && #[trigger] all[i].technologies.contains(x)
}

/// `d` is the latest update date among the articles.
pub open spec fn is_latest_update(all: Seq<ArticleView>, d: Seq<char>) -> bool {
    &&& exists|i: int| 0 <= i < all.len() && #[trigger] all[i].updated_at == d
    &&& forall|j: int| 0 <= j < all.len() ==> !seq_lt(d, #[trigger] all[j].updated_at)
}

/// Every position is kept.
pub open spec fn keep_all(n: nat) -> Seq<bool> {
    Seq::new(n, |i: int| true)
}

/// Inserts `value` into a strictly ascending list unless it is there.
fn insert_facet(list: &mut Vec<String>, value: &str)
    requires
        forall|i: int, j: int|
            0 <= i < j < old(list)@.len() ==> seq_lt(
                #[trigger] old(list)@[i]@,
                #[trigger] old(list)@[j]@,
            ),
    ensures
        forall|i: int, j: int|
            0 <= i < j < final(list)@.len() ==> seq_lt(
                #[trigger] final(list)@[i]@,
                #[trigger] final(list)@[j]@,
            ),
        forall|x: Seq<char>|
            views(final(list)@).contains(x) <==> (views(old(list)@).contains(x) || x == value@),
{
    let v = chars_of(value);
    let mut pos: usize = 0;
    while pos < list.len() && chars_lt(&chars_of(list[pos].as_str()), &v)
        invariant
            pos <= list.len(),
            v@ == value@,
            forall|m: int| 0 <= m < pos ==> seq_lt(#[trigger] list@[m]@, value@),
        decreases list.len() - pos,
    {
        pos = pos + 1;
    }
    let ghost old_list = list@;
    assert(old_list == old(list)@);
    if pos < list.len() && chars_eq(&chars_of(list[pos].as_str()), &v) {
        proof {
            assert forall|x: Seq<char>| views(list@).contains(x) <==> (views(old_list).contains(x)
                || x == value@) by {
                if x == value@ {
                    assert(views(list@)[pos as int] == x);
                }
            }
        }
        return;
    }
    proof {
        if pos < list.len() {
            lemma_seq_lt_total(list@[pos as int]@, value@);
        }
    }
    list.insert(pos, string_of(&v));
    proof {
        assert forall|i: int, j: int| 0 <= i < j < list@.len() implies seq_lt(
            #[trigger] list@[i]@,
            #[trigger] list@[j]@,
        ) by {
            if j < pos {
                assert(list@[i] == old_list[i] && list@[j] == old_list[j]);
            } else if j == pos {
                assert(list@[i] == old_list[i]);
            } else if i < pos {
                assert(list@[i] == old_list[i] && list@[j] == old_list[j - 1]);
                assert(seq_lt(old_list[i]@, value@));
                assert(seq_lt(value@, old_list[pos as int]@));
                lemma_seq_lt_transitive(old_list[i]@, value@, old_list[pos as int]@);
                if j - 1 > pos {
                    lemma_seq_lt_transitive(
                        old_list[i]@,
                        old_list[pos as int]@,
                        old_list[j - 1]@,
                    );
                }
            } else if i == pos {
                assert(list@[j] == old_list[j - 1]);
                if j - 1 > pos {
                    lemma_seq_lt_transitive(value@, old_list[pos as int]@, old_list[j - 1]@);
                }
            } else {
                assert(list@[i] == old_list[i - 1] && list@[j] == old_list[j - 1]);
            }
        }
        assert forall|x: Seq<char>| #[trigger] views(list@).contains(x) <==> (views(old(list)@).contains(x)
            || x == value@) by {
            if views(list@).contains(x) {
                let k = choose|k: int| 0 <= k < views(list@).len() && views(list@)[k] == x;
                if k < pos {
                    assert(views(old_list)[k] == x);
                } else if k > pos {
                    assert(views(old_list)[k - 1] == x);
                }
            }
            if views(old_list).contains(x) {
                let k = choose|k: int| 0 <= k < views(old_list).len() && views(old_list)[k] == x;
                if k < pos {
                    assert(views(list@)[k] == x);
                } else {
                    assert(views(list@)[k + 1] == x);
                }
            }
            if x == value@ {
                assert(views(list@)[pos as int] == x);
            }
        }
    }
}

/// `r` is the published index of the articles: the articles ordered by
/// their update date, newest first, then by id, ties in their given order;
/// every genre, technology and source once, ascending; and the latest
/// update date, at midnight UTC, as the time of generation (the epoch when
/// there is no article).
pub open spec fn is_index_of(articles: Seq<Article>, r: ArticleIndex) -> bool {
    &&& exists|p: Seq<int>|
        {
            &&& is_listing(article_views(articles), keep_all(articles.len()), SortOrder::UpdatedDesc, p)
            &&& r.articles@.len() == p.len()
            &&& forall|k: int| 0 <= k < p.len() ==> #[trigger] r.articles@[k]@ == articles[p[k]]@
        }
    &&& is_facet_list(views(r.facets.genres@), |x: Seq<char>| has_genre(article_views(articles), x))
    &&& is_facet_list(
        views(r.facets.technologies@),
        |x: Seq<char>| has_technology(article_views(articles), x),
    )
    &&& is_facet_list(views(r.facets.sources@), |x: Seq<char>| has_source(article_views(articles), x))
    &&& articles.len() == 0 ==> r.generated_at@ == EMPTY_GENERATED_AT@
    &&& articles.len() > 0 ==> exists|d: Seq<char>|
        is_latest_update(article_views(articles), d) && r.generated_at@ == d + GENERATED_TIME@
}

/// The published index of the articles.
pub fn build_index(articles: Vec<Article>) -> (r: ArticleIndex)
    ensures
        is_index_of(articles@, r),
{
    let ghost all = article_views(articles@);
    let n = articles.len();
    let mut keep: Vec<bool> = Vec::new();
    let mut i: usize = 0;
    while i < n
        invariant
            i <= n,
            n == articles.len(),
            keep@ == keep_all(n as nat).take(i as int),
        decreases n - i,
    {
        keep.push(true);
        i = i + 1;
        assert(keep@ =~= keep_all(n as nat).take(i as int));
    }
    assert(keep@ =~= keep_all(n as nat));
    let order = sorted_positions(&articles, &keep, SortOrder::UpdatedDesc);
    let ghost p = positions(order@);
    let mut sorted: Vec<Article> = Vec::new();
    let mut k: usize = 0;
    while k < order.len()
        invariant
            k <= order.len(),
            n == articles.len(),
            all == article_views(articles@),
            p == positions(order@),
            is_listing(all, keep_all(n as nat), SortOrder::UpdatedDesc, p),
            sorted@.len() == k,
            forall|m: int| 0 <= m < k ==> #[trigger] sorted@[m]@ == articles@[p[m]]@,
        decreases order.len() - k,
    {
        assert(p[k as int] == order@[k as int] as int);
        sorted.push(articles[order[k]].clone());
        k = k + 1;
    }
    // Time of generation: the update date of the first article, which is
    // the latest.
    let mut stamp: Vec<char> = Vec::new();
    if sorted.len() == 0 {
        proof {
            if n > 0 {
                assert(keep_all(n as nat)[0]);
            }
        }
        extend_str(&mut stamp, EMPTY_GENERATED_AT);
    } else {
        extend_str(&mut stamp, sorted[0].updated_at.as_str());
        extend_str(&mut stamp, GENERATED_TIME);
        proof {
            let d = all[p[0]].updated_at;
            assert(sorted@[0]@ == articles@[p[0]]@);
            assert forall|j: int| 0 <= j < all.len() implies !seq_lt(
                d,
                #[trigger] all[j].updated_at,
            ) by {
                assert(keep_all(n as nat)[j]);
                let kj = choose|kj: int| 0 <= kj < p.len() && #[trigger] p[kj] == j;
                if kj == 0 {
                    lemma_seq_lt_irreflexive(d);
                } else {
                    assert(ranks_before(all, SortOrder::UpdatedDesc, p[0], p[kj]));
                    lemma_seq_lt_asymmetric(d, all[j].updated_at);
                }
            }
            assert(is_latest_update(all, d));
        }
    }
    let generated_at = string_of(&stamp);
    // Facets.
    let mut genres: Vec<String> = Vec::new();
    let mut sources: Vec<String> = Vec::new();
    let mut technologies: Vec<String> = Vec::new();
    let mut i: usize = 0;
    while i < n
        invariant
            i <= n,
            n == articles.len(),
            all == article_views(articles@),
            forall|a: int, b: int| 0 <= a < b < genres@.len() ==> seq_lt(#[trigger] genres@[a]@, #[trigger] genres@[b]@),
            forall|a: int, b: int| 0 <= a < b < sources@.len() ==> seq_lt(#[trigger] sources@[a]@, #[trigger] sources@[b]@),
            forall|a: int, b: int|
                0 <= a < b < technologies@.len() ==> seq_lt(#[trigger] technologies@[a]@, #[trigger] technologies@[b]@),
            forall|x: Seq<char>| views(genres@).contains(x) <==> has_genre(all.take(i as int), x),
            forall|x: Seq<char>| views(sources@).contains(x) <==> has_source(all.take(i as int), x),
            forall|x: Seq<char>|
                views(technologies@).contains(x) <==> has_technology(all.take(i as int), x),
        decreases n - i,
    {
        let article = &articles[i];
        insert_facet(&mut genres, article.genre.as_str());
        insert_facet(&mut sources, article.source.as_str());
        let ghost before = views(technologies@);
        let mut t: usize = 0;
        while t < article.technologies.len()
            invariant
                t <= article.technologies.len(),
                forall|a: int, b: int|
                    0 <= a < b < technologies@.len() ==> seq_lt(#[trigger] technologies@[a]@, #[trigger] technologies@[b]@),
                forall|x: Seq<char>|
                    views(technologies@).contains(x) <==> (before.contains(x) || views(
                        article.technologies@,
                    ).take(t as int).contains(x)),
            decreases article.technologies.len() - t,
        {
            let ghost prev = views(technologies@);
            insert_facet(&mut technologies, article.technologies[t].as_str());
            proof {
                let tv = views(article.technologies@);
                let s0 = tv.take(t as int);
                let s1 = tv.take(t + 1);
                assert forall|x: Seq<char>| s1.contains(x) <==> (s0.contains(x)
                    || x == article.technologies@[t as int]@) by {
                    if s1.contains(x) {
                        let q = choose|q: int| 0 <= q < s1.len() && s1[q] == x;
                        if q < t {
                            assert(s0[q] == x);
                        }
                    }
                    if s0.contains(x) {
                        let q = choose|q: int| 0 <= q < s0.len() && s0[q] == x;
                        assert(s1[q] == x);
                    }
                    if x == article.technologies@[t as int]@ {
                        assert(s1[t as int] == x);
                    }
                }
                assert forall|x: Seq<char>| #[trigger] views(technologies@).contains(x) <==> (
                before.contains(x) || s1.contains(x)) by {
                    assert(prev.contains(x) <==> (before.contains(x) || s0.contains(x)));
                    assert(s1.contains(x) <==> (s0.contains(x) || x
                        == article.technologies@[t as int]@));
                }
            }
            t = t + 1;
        }
        proof {
            let pre = all.take(i as int);
            let next = all.take(i + 1);
            assert(views(article.technologies@).take(article.technologies.len() as int)
                =~= all[i as int].technologies);
            assert forall|x: Seq<char>| has_genre(next, x) <==> (has_genre(pre, x) || x
                == all[i as int].genre) by {
                if has_genre(next, x) {
                    let q = choose|q: int| 0 <= q < next.len() && #[trigger] next[q].genre == x;
                    if q < i {
                        assert(pre[q].genre == x);
                    }
                }
                if has_genre(pre, x) {
                    let q = choose|q: int| 0 <= q < pre.len() && #[trigger] pre[q].genre == x;
                    assert(next[q].genre == x);
                }
                if x == all[i as int].genre {
                    assert(next[i as int].genre == x);
                }
            }
            assert forall|x: Seq<char>| has_source(next, x) <==> (has_source(pre, x) || x
                == all[i as int].source) by {
                if has_source(next, x) {
                    let q = choose|q: int| 0 <= q < next.len() && #[trigger] next[q].source == x;
                    if q < i {
                        assert(pre[q].source == x);
                    }
                }
                if has_source(pre, x) {
                    let q = choose|q: int| 0 <= q < pre.len() && #[trigger] pre[q].source == x;
                    assert(next[q].source == x);
                }
                if x == all[i as int].source {
                    assert(next[i as int].source == x);
                }
            }
            assert forall|x: Seq<char>| #[trigger] has_technology(next, x) <==> (has_technology(pre, x)
                || all[i as int].technologies.contains(x)) by {
                if has_technology(next, x) {
                    let q = choose|q: int|
                        0 <= q < next.len() && #[trigger] next[q].technologies.contains(x);
                    if q < i {
                        assert(pre[q].technologies.contains(x));
                    }
                }
                if has_technology(pre, x) {
                    let q = choose|q: int|
                        0 <= q < pre.len() && #[trigger] pre[q].technologies.contains(x);
                    assert(next[q].technologies.contains(x));
                }
                if all[i as int].technologies.contains(x) {
                    assert(next[i as int].technologies.contains(x));
                }
            }
            assert forall|x: Seq<char>| #[trigger] views(technologies@).contains(x)
                <==> has_technology(next, x) by {
                assert(views(technologies@).contains(x) <==> (before.contains(x) || views(
                    article.technologies@,
                ).take(article.technologies.len() as int).contains(x)));
                assert(before.contains(x) <==> has_technology(pre, x));
                assert(has_technology(next, x) <==> (has_technology(pre, x)
                    || all[i as int].technologies.contains(x)));
            }
        }
        i = i + 1;
    }
    proof {
        assert(all.take(n as int) =~= all);
    }
    let r = ArticleIndex {
        generated_at,
        articles: sorted,
        facets: ArticleFacets { genres, technologies, sources },
    };
    assert(r.articles@.len() == p.len());
    r
}

/// Checks the articles as a collection and, when they keep every rule,
/// gives their number and their published index.
pub fn build_index_file(articles: Vec<Article>) -> (r: Result<(usize, ArticleIndex), ValidationError>)
    ensures
        r is Ok <==> collection_fault(article_views(articles@)) is None,
        r matches Err(e) ==> collection_fault(article_views(articles@)) == Some(e@),
        r matches Ok((count, index)) ==> count == articles@.len() && is_index_of(articles@, index),
{
    validate_collection(articles.as_slice())?;
    let count = articles.len();
    Ok((count, build_index(articles)))
}

} // verus!

verus! {

/// The published list runs from the latest update to the earliest, and,
/// among articles updated the same day, by id.
pub proof fn lemma_index_newest_first(articles: Seq<Article>, r: ArticleIndex)
    requires
        is_index_of(articles, r),
    ensures
        forall|k: int, l: int|
            0 <= k < l < r.articles@.len() ==> !seq_lt(
                #[trigger] r.articles@[k]@.updated_at,
                #[trigger] r.articles@[l]@.updated_at,
            ),
        forall|k: int, l: int|
            0 <= k < l < r.articles@.len() && #[trigger] r.articles@[k]@.updated_at
                == #[trigger] r.articles@[l]@.updated_at ==> !seq_lt(
                r.articles@[l]@.id,
                r.articles@[k]@.id,
            ),
{
    let all = article_views(articles);
    let p = choose|p: Seq<int>|
        {
            &&& is_listing(all, keep_all(articles.len()), SortOrder::UpdatedDesc, p)
            &&& r.articles@.len() == p.len()
            &&& forall|k: int| 0 <= k < p.len() ==> #[trigger] r.articles@[k]@ == articles[p[k]]@
        };
    assert forall|k: int, l: int| 0 <= k < l < r.articles@.len() implies !seq_lt(
        #[trigger] r.articles@[k]@.updated_at,
        #[trigger] r.articles@[l]@.updated_at,
    ) && (r.articles@[k]@.updated_at == r.articles@[l]@.updated_at ==> !seq_lt(
        r.articles@[l]@.id,
        r.articles@[k]@.id,
    )) by {
        assert(ranks_before(all, SortOrder::UpdatedDesc, p[k], p[l]));
        assert(r.articles@[k]@ == all[p[k]] && r.articles@[l]@ == all[p[l]]);
        lemma_seq_lt_asymmetric(all[p[k]].updated_at, all[p[l]].updated_at);
        lemma_seq_lt_asymmetric(all[p[k]].id, all[p[l]].id);
        lemma_seq_lt_irreflexive(all[p[k]].updated_at);
    }
}

/// No two of the articles share an id.
pub open spec fn distinct_ids(all: Seq<ArticleView>) -> bool {
    forall|i: int, j: int| 0 <= i < j < all.len() ==> #[trigger] all[i].id != #[trigger] all[j].id
}

/// With distinct ids, the published list is strictly ordered and holds
/// exactly the given articles.
proof fn lemma_index_list_shape(articles: Seq<Article>, r: ArticleIndex)
    requires
        is_index_of(articles, r),
        distinct_ids(article_views(articles)),
    ensures
        forall|k: int, l: int|
            0 <= k < l < r.articles@.len() ==> precedes(
                #[trigger] article_views(r.articles@)[k],
                #[trigger] article_views(r.articles@)[l],
                SortOrder::UpdatedDesc,
            ),
        forall|x: ArticleView|
            article_views(r.articles@).contains(x) <==> article_views(articles).contains(x),
{
    let all = article_views(articles);
    let out = article_views(r.articles@);
    let o = SortOrder::UpdatedDesc;
    let p = choose|p: Seq<int>|
        {
            &&& is_listing(all, keep_all(articles.len()), o, p)
            &&& r.articles@.len() == p.len()
            &&& forall|k: int| 0 <= k < p.len() ==> #[trigger] r.articles@[k]@ == articles[p[k]]@
        };
    assert forall|k: int, l: int| 0 <= k < l < r.articles@.len() implies precedes(
        #[trigger] out[k],
        #[trigger] out[l],
        o,
    ) by {
        assert(ranks_before(all, o, p[k], p[l]));
        assert(out[k] == all[p[k]] && out[l] == all[p[l]]);
        if !precedes(all[p[k]], all[p[l]], o) {
            crate::order::lemma_level_same_id(all[p[k]], all[p[l]], o);
            assert(p[k] < p[l]);
        }
    }
    assert forall|x: ArticleView| out.contains(x) <==> all.contains(x) by {
        if out.contains(x) {
            let k = choose|k: int| 0 <= k < out.len() && out[k] == x;
            assert(all[p[k]] == x);
        }
        if all.contains(x) {
            let i = choose|i: int| 0 <= i < all.len() && all[i] == x;
            assert(keep_all(articles.len())[i]);
            let k = choose|k: int| 0 <= k < p.len() && #[trigger] p[k] == i;
            assert(out[k] == x);
        }
    }
}

/// The index does not depend on the order in which the articles come: two
/// lists that hold the same articles, no id twice, give the same index.
pub proof fn lemma_index_order_independent(
    xs: Seq<Article>,
    ys: Seq<Article>,
    r1: ArticleIndex,
    r2: ArticleIndex,
)
    requires
        forall|x: ArticleView| article_views(xs).contains(x) <==> article_views(ys).contains(x),
        distinct_ids(article_views(xs)),
        distinct_ids(article_views(ys)),
        is_index_of(xs, r1),
        is_index_of(ys, r2),
    ensures
        article_views(r1.articles@) == article_views(r2.articles@),
        views(r1.facets.genres@) == views(r2.facets.genres@),
        views(r1.facets.technologies@) == views(r2.facets.technologies@),
        views(r1.facets.sources@) == views(r2.facets.sources@),
        r1.generated_at@ == r2.generated_at@,
{
    let vx = article_views(xs);
    let vy = article_views(ys);
    let o = SortOrder::UpdatedDesc;
    // The lists.
    lemma_index_list_shape(xs, r1);
    lemma_index_list_shape(ys, r2);
    let before = |a: ArticleView, b: ArticleView| precedes(a, b, o);
    assert forall|a: ArticleView, b: ArticleView| #[trigger] before(a, b) implies !before(b, a) by {
        crate::order::lemma_precedes_asymmetric(a, b, o);
    }
    assert forall|x: ArticleView| article_views(r1.articles@).contains(x) <==> article_views(
        r2.articles@,
    ).contains(x) by {
        assert(article_views(r1.articles@).contains(x) <==> vx.contains(x));
        assert(article_views(r2.articles@).contains(x) <==> vy.contains(x));
    }
    crate::text::lemma_strictly_sorted_unique(
        article_views(r1.articles@),
        article_views(r2.articles@),
        before,
    );
    // The facets.
    let lt = |a: Seq<char>, b: Seq<char>| seq_lt(a, b);
    assert forall|a: Seq<char>, b: Seq<char>| #[trigger] lt(a, b) implies !lt(b, a) by {
        lemma_seq_lt_asymmetric(a, b);
    }
    assert forall|g: Seq<char>| has_genre(vx, g) <==> has_genre(vy, g) by {
        if has_genre(vx, g) {
            let i = choose|i: int| 0 <= i < vx.len() && #[trigger] vx[i].genre == g;
            assert(vx.contains(vx[i]));
            let j = choose|j: int| 0 <= j < vy.len() && vy[j] == vx[i];
            assert(vy[j].genre == g);
        }
        if has_genre(vy, g) {
            let i = choose|i: int| 0 <= i < vy.len() && #[trigger] vy[i].genre == g;
            assert(vy.contains(vy[i]));
            let j = choose|j: int| 0 <= j < vx.len() && vx[j] == vy[i];
            assert(vx[j].genre == g);
        }
    }
    assert forall|g: Seq<char>| has_source(vx, g) <==> has_source(vy, g) by {
        if has_source(vx, g) {
            let i = choose|i: int| 0 <= i < vx.len() && #[trigger] vx[i].source == g;
            assert(vx.contains(vx[i]));
            let j = choose|j: int| 0 <= j < vy.len() && vy[j] == vx[i];
            assert(vy[j].source == g);
        }
        if has_source(vy, g) {
            let i = choose|i: int| 0 <= i < vy.len() && #[trigger] vy[i].source == g;
            assert(vy.contains(vy[i]));
            let j = choose|j: int| 0 <= j < vx.len() && vx[j] == vy[i];
            assert(vx[j].source == g);
        }
    }
    assert forall|g: Seq<char>| has_technology(vx, g) <==> has_technology(vy, g) by {
        if has_technology(vx, g) {
            let i = choose|i: int| 0 <= i < vx.len() && #[trigger] vx[i].technologies.contains(g);
            assert(vx.contains(vx[i]));
            let j = choose|j: int| 0 <= j < vy.len() && vy[j] == vx[i];
            assert(vy[j].technologies.contains(g));
        }
        if has_technology(vy, g) {
            let i = choose|i: int| 0 <= i < vy.len() && #[trigger] vy[i].technologies.contains(g);
            assert(vy.contains(vy[i]));
            let j = choose|j: int| 0 <= j < vx.len() && vx[j] == vy[i];
            assert(vx[j].technologies.contains(g));
        }
    }
    crate::text::lemma_strictly_sorted_unique(
        views(r1.facets.genres@),
        views(r2.facets.genres@),
        lt,
    );
    crate::text::lemma_strictly_sorted_unique(
        views(r1.facets.technologies@),
        views(r2.facets.technologies@),
        lt,
    );
    crate::text::lemma_strictly_sorted_unique(
        views(r1.facets.sources@),
        views(r2.facets.sources@),
        lt,
    );
    // The time stamp.
    if xs.len() == 0 {
        if ys.len() > 0 {
            assert(vy.contains(vy[0]));
        }
    } else {
        assert(vx.contains(vx[0]));
        let d1 = choose|d: Seq<char>| is_latest_update(vx, d) && r1.generated_at@ == d + GENERATED_TIME@;
        let d2 = choose|d: Seq<char>| is_latest_update(vy, d) && r2.generated_at@ == d + GENERATED_TIME@;
        let i1 = choose|i: int| 0 <= i < vx.len() && #[trigger] vx[i].updated_at == d1;
        assert(vx.contains(vx[i1]));
        let j1 = choose|j: int| 0 <= j < vy.len() && vy[j] == vx[i1];
        assert(!seq_lt(d2, vy[j1].updated_at));
        let i2 = choose|i: int| 0 <= i < vy.len() && #[trigger] vy[i].updated_at == d2;
        assert(vy.contains(vy[i2]));
        let j2 = choose|j: int| 0 <= j < vx.len() && vx[j] == vy[i2];
        assert(!seq_lt(d1, vx[j2].updated_at));
        lemma_seq_lt_total(d1, d2);
    }
}

} // verus!
