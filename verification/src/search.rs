//! Searching the index: every condition of the form is applied, all of them
//! together, and the matches are listed in the chosen order.
use unicode_normalization::UnicodeNormalization;
use vstd::prelude::*;

use crate::model::{Article, ArticleIndex, ArticleView, article_views};
use crate::text::{lemma_join_holds_parts, lemma_occurs_in_extend, lemma_occurs_in_itself, lemma_occurs_in_middle};
use crate::order::{is_listing, positions, sort_order, sort_order_of, sorted_positions};
use crate::text::{
    chars_of, contains_chars, digits_value, extend_chars, extend_str, is_digit_char,
    join, occurs_in, parse_u16, parse_u16_text, push_decimal, push_joined, seq_lt, string_of,
    take_at_most, take_chars, text_lt, trim, trim_chars, views,
};

verus! {

/// The most characters of a query value that are looked at.
pub const MAX_QUERY_CHARS: usize = 200;

/// The values of the search form, as the browser sends them: untrusted text.
#[derive(Debug, PartialEq, Eq)]
pub struct SearchQuery {
    pub keyword: String,
    pub genre: String,
    pub technology: String,
    pub source: String,
    pub created_from: String,
    pub created_to: String,
    pub max_minutes: String,
    pub sort: String,
}

impl Default for SearchQuery {
    fn default() -> (q: Self)
        ensures
            q.keyword@.len() == 0,
            q.genre@.len() == 0,
            q.technology@.len() == 0,
            q.source@.len() == 0,
            q.created_from@.len() == 0,
            q.created_to@.len() == 0,
            q.max_minutes@.len() == 0,
            q.sort@.len() == 0,
    {
        SearchQuery {
            keyword: String::new(),
            genre: String::new(),
            technology: String::new(),
            source: String::new(),
            created_from: String::new(),
            created_to: String::new(),
            max_minutes: String::new(),
            sort: String::new(),
        }
    }
}

impl Clone for SearchQuery {
    fn clone(&self) -> (q: Self)
        ensures
            q == *self,
    {
        SearchQuery {
            keyword: self.keyword.clone(),
            genre: self.genre.clone(),
            technology: self.technology.clone(),
            source: self.source.clone(),
            created_from: self.created_from.clone(),
            created_to: self.created_to.clone(),
            max_minutes: self.max_minutes.clone(),
            sort: self.sort.clone(),
        }
    }
}

// ---------------------------------------------------------------------------
// Unicode services
// ---------------------------------------------------------------------------

/// The NFKC normal form of a text, as `unicode_normalization` computes it.
pub uninterp spec fn nfkc_form(s: Seq<char>) -> Seq<char>;

/// The characters that `char::to_lowercase` yields for `c`.
pub uninterp spec fn lowercase_of(c: char) -> Seq<char>;

/// `UnicodeNormalization::nfkc` on a string, collected: the result is the
/// named NFKC form of the argument.
#[verifier::external_body]
fn nfkc_string(s: &str) -> (r: String)
    ensures
        r@ == nfkc_form(s@),
{
    s.nfkc().collect()
}

/// `char::to_lowercase`, collected: the result is the named lowercase
/// mapping of `c`.
#[verifier::external_body]
fn char_lowercase(c: char) -> (r: Vec<char>)
    ensures
        r@ == lowercase_of(c),
{
    c.to_lowercase().collect()
}

/// Every character replaced by its lowercase mapping.
pub open spec fn lowercase(s: Seq<char>) -> Seq<char>
    decreases s.len(),
{
    if s.len() == 0 {
        Seq::empty()
    } else {
        lowercase(s.drop_last()) + lowercase_of(s.last())
    }
}

// ---------------------------------------------------------------------------
// Query values
// ---------------------------------------------------------------------------

/// A query value trimmed and cut to its first 200 characters.
pub open spec fn limited(s: Seq<char>) -> Seq<char> {
    take_at_most(trim(s), MAX_QUERY_CHARS as nat)
}

/// A text NFKC-normalised and lowercased: the form in which keywords and
/// article texts are compared.
pub open spec fn folded(s: Seq<char>) -> Seq<char> {
    lowercase(nfkc_form(s))
}

/// The keyword of a query in compared form: trimmed, cut to 200
/// characters, then folded (nothing stays nothing).
pub open spec fn normalized(s: Seq<char>) -> Seq<char> {
    if limited(s).len() == 0 {
        Seq::empty()
    } else {
        folded(limited(s))
    }
}

/// The text that a keyword is looked for in: title, all summary paragraphs,
/// source, genre and technologies, separated by spaces.
pub open spec fn searchable_text_of(a: ArticleView) -> Seq<char> {
    a.title + " "@ + join(a.summary, " "@) + " "@ + a.source + " "@ + a.genre + " "@ + join(
        a.technologies,
        " "@,
    )
}

/// The reading-time limit of a query: 5, 10, 15 or 30 minutes, else none.
pub open spec fn max_minutes_of(s: Seq<char>) -> Option<u16> {
    match parse_u16(s) {
        Some(n) => if n == 5 || n == 10 || n == 15 || n == 30 {
            Some(n)
        } else {
            None
        },
        None => None,
    }
}

pub open spec fn is_leap_year(y: int) -> bool {
    y % 4 == 0 && (y % 100 != 0 || y % 400 == 0)
}

/// The number of days of a month of the Gregorian calendar (0 for a month
/// number that names none).
pub open spec fn days_in_month(y: int, m: int) -> int {
    if m == 1 || m == 3 || m == 5 || m == 7 || m == 8 || m == 10 || m == 12 {
        31
    } else if m == 4 || m == 6 || m == 9 || m == 11 {
        30
    } else if m == 2 {
        if is_leap_year(y) {
            29
        } else {
            28
        }
    } else {
        0
    }
}

/// Whether `s` is a date written `YYYY-MM-DD` that the calendar has.
pub open spec fn is_valid_date(s: Seq<char>) -> bool {
    &&& s.len() == 10
    &&& s[4] == '-'
    &&& s[7] == '-'
    &&& forall|k: int| 0 <= k < 10 && k != 4 && k != 7 ==> is_digit_char(#[trigger] s[k])
    &&& 1 <= digits_value(s.subrange(5, 7)) <= 12
    &&& 1 <= digits_value(s.subrange(8, 10)) <= days_in_month(
        digits_value(s.subrange(0, 4)),
        digits_value(s.subrange(5, 7)),
    )
}

/// Whether an article meets every condition of a query.
pub open spec fn matches_query(q: SearchQuery, a: ArticleView) -> bool {
    let keyword = normalized(q.keyword@);
    let genre = limited(q.genre@);
    let technology = limited(q.technology@);
    let source = limited(q.source@);
    &&& keyword.len() == 0 || occurs_in(folded(trim(searchable_text_of(a))), keyword)
    &&& genre.len() == 0 || a.genre == genre
    &&& technology.len() == 0 || a.technologies.contains(technology)
    &&& source.len() == 0 || a.source == source
    &&& is_valid_date(q.created_from@) ==> !seq_lt(a.created_at, q.created_from@)
    &&& is_valid_date(q.created_to@) ==> !seq_lt(q.created_to@, a.created_at)
    &&& max_minutes_of(q.max_minutes@) matches Some(m) ==> a.reading_minutes <= m
}

/// The conditions of a query that take effect, as the labels shown above
/// the results.
pub open spec fn conditions_of(q: SearchQuery) -> Seq<Seq<char>> {
    let keyword = limited(q.keyword@);
    let genre = limited(q.genre@);
    let technology = limited(q.technology@);
    let source = limited(q.source@);
    let k = if keyword.len() > 0 {
        seq!["検索: "@ + keyword]
    } else {
        Seq::empty()
    };
    let g = if genre.len() > 0 {
        seq![genre]
    } else {
        Seq::empty()
    };
    let t = if technology.len() > 0 {
        seq![technology]
    } else {
        Seq::empty()
    };
    let s = if source.len() > 0 {
        seq![source]
    } else {
        Seq::empty()
    };
    let from = if is_valid_date(q.created_from@) {
        seq!["作成日 "@ + q.created_from@ + "〜"@]
    } else {
        Seq::empty()
    };
    let to = if is_valid_date(q.created_to@) {
        seq!["作成日 〜"@ + q.created_to@]
    } else {
        Seq::empty()
    };
    let minutes = match max_minutes_of(q.max_minutes@) {
        Some(m) => seq![crate::text::decimal(m as nat) + "分以内"@],
        None => Seq::empty(),
    };
    k + g + t + s + from + to + minutes
}

impl SearchQuery {
    /// The labels of the conditions that take effect: the keyword, genre,
    /// technology and source when not blank, a valid date range, a reading
    /// time limit.
    pub fn active_conditions(&self) -> (r: Vec<String>)
        ensures
            views(r@) == conditions_of(*self),
    {
        let mut conditions: Vec<String> = Vec::new();
        let keyword = limited_chars(self.keyword.as_str());
        if keyword.len() > 0 {
            let mut label: Vec<char> = Vec::new();
            extend_str(&mut label, "検索: ");
            extend_chars(&mut label, &keyword);
            conditions.push(string_of(&label));
        }
        let ghost after_keyword = views(conditions@);
        let genre = limited_chars(self.genre.as_str());
        if genre.len() > 0 {
            conditions.push(string_of(&genre));
        }
        let technology = limited_chars(self.technology.as_str());
        if technology.len() > 0 {
            conditions.push(string_of(&technology));
        }
        let source = limited_chars(self.source.as_str());
        if source.len() > 0 {
            conditions.push(string_of(&source));
        }
        if let Some(date) = valid_date(self.created_from.as_str()) {
            let mut label: Vec<char> = Vec::new();
            extend_str(&mut label, "作成日 ");
            extend_str(&mut label, date);
            extend_str(&mut label, "〜");
            conditions.push(string_of(&label));
        }
        if let Some(date) = valid_date(self.created_to.as_str()) {
            let mut label: Vec<char> = Vec::new();
            extend_str(&mut label, "作成日 〜");
            extend_str(&mut label, date);
            conditions.push(string_of(&label));
        }
        if let Some(minutes) = max_minutes(self.max_minutes.as_str()) {
            let mut label: Vec<char> = Vec::new();
            push_decimal(&mut label, minutes as u64);
            extend_str(&mut label, "分以内");
            conditions.push(string_of(&label));
        }
        assert(views(conditions@) =~= conditions_of(*self));
        conditions
    }
}

/// A query value trimmed and cut to 200 characters.
fn limited_chars(value: &str) -> (r: Vec<char>)
    ensures
        r@ == limited(value@),
{
    let cs = chars_of(value);
    let t = trim_chars(&cs);
    take_chars(&t, MAX_QUERY_CHARS)
}

/// A query value trimmed and cut to 200 characters (`limited(value.trim())`).
fn limited_text(value: &str) -> (r: String)
    ensures
        r@ == limited(value@),
{
    string_of(&limited_chars(value))
}

/// The normalised form of a query value: trimmed, cut to 200 characters,
/// NFKC, lowercase.
fn normalize(value: &str) -> (r: Vec<char>)
    ensures
        r@ == normalized(value@),
{
    let cut = limited_text(value);
    if cut.as_str().is_empty() {
        return Vec::new();
    }
    fold(cut.as_str())
}

/// A whole text in NFKC, lowercased.
fn fold(value: &str) -> (r: Vec<char>)
    ensures
        r@ == folded(value@),
{
    let composed = nfkc_string(value);
    let cs = chars_of(composed.as_str());
    let mut r: Vec<char> = Vec::new();
    let mut i: usize = 0;
    while i < cs.len()
        invariant
            i <= cs.len(),
            cs@ == nfkc_form(value@),
            r@ == lowercase(cs@.take(i as int)),
        decreases cs.len() - i,
    {
        let lower = char_lowercase(cs[i]);
        extend_chars(&mut r, &lower);
        proof {
            assert(cs@.take(i + 1).drop_last() =~= cs@.take(i as int));
        }
        i = i + 1;
    }
    assert(cs@.take(cs.len() as int) =~= cs@);
    r
}

/// The text that a keyword is looked for in.
fn searchable_text(article: &Article) -> (r: String)
    ensures
        r@ == searchable_text_of(article@),
{
    let mut text: Vec<char> = Vec::new();
    extend_str(&mut text, article.title.as_str());
    extend_str(&mut text, " ");
    push_joined(&mut text, &article.summary, " ");
    extend_str(&mut text, " ");
    extend_str(&mut text, article.source.as_str());
    extend_str(&mut text, " ");
    extend_str(&mut text, article.genre.as_str());
    extend_str(&mut text, " ");
    push_joined(&mut text, &article.technologies, " ");
    string_of(&text)
}

/// The reading-time limit that a query value names, if it names one of
/// 5, 10, 15 or 30 minutes.
pub fn max_minutes(value: &str) -> (r: Option<u16>)
    ensures
        r == max_minutes_of(value@),
{
    match parse_u16_text(value) {
        Some(n) => if n == 5 || n == 10 || n == 15 || n == 30 {
            Some(n)
        } else {
            None
        },
        None => None,
    }
}

/// The number spelt by the digits `s[i..j]`, at most four of them.
fn digits_between(s: &Vec<char>, i: usize, j: usize) -> (v: u32)
    requires
        i <= j <= s.len(),
        j - i <= 4,
        forall|k: int| i <= k < j ==> is_digit_char(#[trigger] s@[k]),
    ensures
        v == digits_value(s@.subrange(i as int, j as int)),
{
    let mut v: u32 = 0;
    let mut bound: u32 = 1;
    let mut k: usize = i;
    assert(s@.subrange(i as int, i as int) =~= Seq::<char>::empty());
    while k < j
        invariant
            i <= k <= j <= s.len(),
            j - i <= 4,
            forall|m: int| i <= m < j ==> is_digit_char(#[trigger] s@[m]),
            v == digits_value(s@.subrange(i as int, k as int)),
            v < bound,
            bound <= 10000,
            bound == 1 || bound == 10 || bound == 100 || bound == 1000 || bound == 10000,
            k - i == 0 ==> bound == 1,
            k - i == 1 ==> bound == 10,
            k - i == 2 ==> bound == 100,
            k - i == 3 ==> bound == 1000,
            k - i == 4 ==> bound == 10000,
        decreases j - k,
    {
        let c = s[k];
        let d = (c as u32) - ('0' as u32);
        proof {
            let p = s@.subrange(i as int, k + 1);
            assert(p.drop_last() =~= s@.subrange(i as int, k as int));
            assert(p.last() == c);
        }
        v = v * 10 + d;
        bound = bound * 10;
        k = k + 1;
    }
    v
}

/// The value itself when it is a date written `YYYY-MM-DD` that the
/// calendar has, else nothing.
pub fn valid_date(value: &str) -> (r: Option<&str>)
    ensures
        r == if is_valid_date(value@) {
            Some(value)
        } else {
            None
        },
{
    let s = chars_of(value);
    if s.len() != 10 || s[4] != '-' || s[7] != '-' {
        return None;
    }
    let mut k: usize = 0;
    while k < 10
        invariant
            s@ == value@,
            s.len() == 10,
            k <= 10,
            forall|m: int| 0 <= m < k && m != 4 && m != 7 ==> is_digit_char(#[trigger] s@[m]),
        decreases 10 - k,
    {
        if k != 4 && k != 7 && !('0' <= s[k] && s[k] <= '9') {
            return None;
        }
        k = k + 1;
    }
    let year = digits_between(&s, 0, 4);
    let month = digits_between(&s, 5, 7);
    let day = digits_between(&s, 8, 10);
    let leap_year = year % 4 == 0 && (year % 100 != 0 || year % 400 == 0);
    let max_day: u32 = if month == 1 || month == 3 || month == 5 || month == 7 || month == 8
        || month == 10 || month == 12 {
        31
    } else if month == 4 || month == 6 || month == 9 || month == 11 {
        30
    } else if month == 2 {
        if leap_year {
            29
        } else {
            28
        }
    } else {
        return None;
    };
    if day > 0 && day <= max_day {
        Some(value)
    } else {
        None
    }
}

/// Whether article `a` has the technology `technology` among its own.
fn has_technology(a: &Article, technology: &Vec<char>) -> (r: bool)
    ensures
        r == a@.technologies.contains(technology@),
{
    let mut i: usize = 0;
    while i < a.technologies.len()
        invariant
            i <= a.technologies.len(),
            forall|k: int| 0 <= k < i ==> a.technologies@[k]@ != technology@,
        decreases a.technologies.len() - i,
    {
        let t = chars_of(a.technologies[i].as_str());
        if crate::text::chars_eq(&t, technology) {
            assert(a@.technologies[i as int] == technology@);
            return true;
        }
        i = i + 1;
    }
    proof {
        if a@.technologies.contains(technology@) {
            let k = choose|k: int|
                0 <= k < a@.technologies.len() && a@.technologies[k] == technology@;
            assert(a.technologies@[k]@ == technology@);
        }
    }
    false
}

/// The normalised conditions of a query, ready to test articles with.
struct Filter<'q> {
    keyword: Vec<char>,
    genre: Vec<char>,
    technology: Vec<char>,
    source: Vec<char>,
    created_from: Option<&'q str>,
    created_to: Option<&'q str>,
    max_minutes: Option<u16>,
}

impl<'q> Filter<'q> {
    spec fn of(self, q: SearchQuery) -> bool {
        &&& self.keyword@ == normalized(q.keyword@)
        &&& self.genre@ == limited(q.genre@)
        &&& self.technology@ == limited(q.technology@)
        &&& self.source@ == limited(q.source@)
        &&& (self.created_from matches Some(d) ==> d@ == q.created_from@) && (self.created_from
            is Some <==> is_valid_date(q.created_from@))
        &&& (self.created_to matches Some(d) ==> d@ == q.created_to@) && (self.created_to is Some
            <==> is_valid_date(q.created_to@))
        &&& self.max_minutes == max_minutes_of(q.max_minutes@)
    }

    fn new(q: &'q SearchQuery) -> (f: Filter<'q>)
        ensures
            f.of(*q),
    {
        Filter {
            keyword: normalize(q.keyword.as_str()),
            genre: limited_chars(q.genre.as_str()),
            technology: limited_chars(q.technology.as_str()),
            source: limited_chars(q.source.as_str()),
            created_from: valid_date(q.created_from.as_str()),
            created_to: valid_date(q.created_to.as_str()),
            max_minutes: max_minutes(q.max_minutes.as_str()),
        }
    }

    fn keeps(&self, a: &Article, Ghost(q): Ghost<SearchQuery>) -> (r: bool)
        requires
            self.of(q),
        ensures
            r == matches_query(q, a@),
    {
        if self.keyword.len() > 0 {
            let whole = searchable_text(a);
            let trimmed = string_of(&trim_chars(&chars_of(whole.as_str())));
            let text = fold(trimmed.as_str());
            if !contains_chars(&text, &self.keyword) {
                return false;
            }
        }
        if self.genre.len() > 0 && !crate::text::chars_eq(&chars_of(a.genre.as_str()), &self.genre) {
            return false;
        }
        if self.technology.len() > 0 && !has_technology(a, &self.technology) {
            return false;
        }
        if self.source.len() > 0 && !crate::text::chars_eq(
            &chars_of(a.source.as_str()),
            &self.source,
        ) {
            return false;
        }
        if let Some(date) = self.created_from {
            if text_lt(a.created_at.as_str(), date) {
                return false;
            }
        }
        if let Some(date) = self.created_to {
            if text_lt(date, a.created_at.as_str()) {
                return false;
            }
        }
        if let Some(minutes) = self.max_minutes {
            if a.reading_minutes > minutes {
                return false;
            }
        }
        true
    }
}

/// Whether each article of the list meets the query.
pub open spec fn query_matches(all: Seq<ArticleView>, q: SearchQuery) -> Seq<bool> {
    Seq::new(all.len(), |i: int| matches_query(q, all[i]))
}

/// The articles of the index that meet every condition of the query, in
/// the order that the query's `sort` names (newest update first when it
/// names none); articles that the order puts level keep their index order.
pub fn search_articles<'a>(index: &'a ArticleIndex, query: &SearchQuery) -> (r: Vec<&'a Article>)
    ensures
        exists|p: Seq<int>|
            {
                &&& is_listing(
                    article_views(index.articles@),
                    query_matches(article_views(index.articles@), *query),
                    sort_order_of(query.sort@),
                    p,
                )
                &&& r@.len() == p.len()
                &&& forall|k: int| 0 <= k < p.len() ==> *#[trigger] r@[k] == index.articles@[p[k]]
            },
{
    let filter = Filter::new(query);
    let all = &index.articles;
    let mut keep: Vec<bool> = Vec::new();
    let mut i: usize = 0;
    while i < all.len()
        invariant
            i <= all.len(),
            filter.of(*query),
            keep@ == query_matches(article_views(all@), *query).take(i as int),
        decreases all.len() - i,
    {
        let b = filter.keeps(&all[i], Ghost(*query));
        keep.push(b);
        i = i + 1;
        assert(keep@ =~= query_matches(article_views(all@), *query).take(i as int));
    }
    assert(keep@ =~= query_matches(article_views(all@), *query));
    let order = sorted_positions(all, &keep, sort_order(query.sort.as_str()));
    let mut r: Vec<&'a Article> = Vec::new();
    let mut k: usize = 0;
    while k < order.len()
        invariant
            k <= order.len(),
            is_listing(
                article_views(all@),
                keep@,
                sort_order_of(query.sort@),
                positions(order@),
            ),
            r@.len() == k,
            forall|m: int| 0 <= m < k ==> *#[trigger] r@[m] == all@[order@[m] as int],
        decreases order.len() - k,
    {
        let ghost p = positions(order@);
        assert(p[k as int] == order@[k as int] as int);
        let position = order[k];
        r.push(&all[position]);
        k = k + 1;
    }
    proof {
        let p = positions(order@);
        assert forall|m: int| 0 <= m < p.len() implies *#[trigger] r@[m] == index.articles@[p[m]] by {
            assert(p[m] == order@[m] as int);
        }
    }
    r
}

} // verus!

verus! {

/// A query that shows no condition label filters nothing: every article
/// meets it.
pub proof fn lemma_no_conditions_filter_nothing(q: SearchQuery, a: ArticleView)
    requires
        conditions_of(q).len() == 0,
    ensures
        matches_query(q, a),
{
}

/// The query of an untouched form shows no condition and so lists every
/// article.
pub proof fn lemma_default_query_keeps_all(q: SearchQuery, a: ArticleView)
    requires
        q.keyword@.len() == 0,
        q.genre@.len() == 0,
        q.technology@.len() == 0,
        q.source@.len() == 0,
        q.created_from@.len() == 0,
        q.created_to@.len() == 0,
        q.max_minutes@.len() == 0,
    ensures
        conditions_of(q).len() == 0,
        matches_query(q, a),
{
    assert(trim(Seq::<char>::empty()) == Seq::<char>::empty());
    assert(q.keyword@ =~= Seq::<char>::empty());
    assert(q.genre@ =~= Seq::<char>::empty());
    assert(q.technology@ =~= Seq::<char>::empty());
    assert(q.source@ =~= Seq::<char>::empty());
}

/// A query whose every value is the text `blank`.
pub open spec fn blank_query(blank: String) -> SearchQuery {
    SearchQuery {
        keyword: blank,
        genre: blank,
        technology: blank,
        source: blank,
        created_from: blank,
        created_to: blank,
        max_minutes: blank,
        sort: blank,
    }
}

/// The conditions of a query combine by "and": an article meets the query
/// exactly when it meets each condition taken alone.
pub proof fn lemma_conditions_combine_by_and(q: SearchQuery, blank: String, a: ArticleView)
    requires
        blank@.len() == 0,
    ensures
        matches_query(q, a) == {
            &&& matches_query(SearchQuery { keyword: q.keyword, ..blank_query(blank) }, a)
            &&& matches_query(SearchQuery { genre: q.genre, ..blank_query(blank) }, a)
            &&& matches_query(SearchQuery { technology: q.technology, ..blank_query(blank) }, a)
            &&& matches_query(SearchQuery { source: q.source, ..blank_query(blank) }, a)
            &&& matches_query(SearchQuery { created_from: q.created_from, ..blank_query(blank) }, a)
            &&& matches_query(SearchQuery { created_to: q.created_to, ..blank_query(blank) }, a)
            &&& matches_query(SearchQuery { max_minutes: q.max_minutes, ..blank_query(blank) }, a)
        },
{
    lemma_default_query_keeps_all(blank_query(blank), a);
}

/// What each condition of a query asks of an article, taken alone: the
/// keyword is looked for in the article's searched text, both folded; the
/// genre and the source must equal the query value and the technology must
/// be one of the article's; the dates bound the creation date on both
/// sides, inclusive, when they are valid; the reading-time limit bounds the
/// reading time. A blank value, an invalid date and an unknown limit ask
/// nothing.
pub proof fn lemma_condition_meaning(q: SearchQuery, blank: String, a: ArticleView)
    requires
        blank@.len() == 0,
    ensures
        matches_query(SearchQuery { keyword: q.keyword, ..blank_query(blank) }, a) <==> (limited(
            q.keyword@,
        ).len() == 0 || occurs_in(folded(trim(searchable_text_of(a))), folded(limited(q.keyword@)))),
        matches_query(SearchQuery { genre: q.genre, ..blank_query(blank) }, a) <==> (limited(
            q.genre@,
        ).len() == 0 || a.genre == limited(q.genre@)),
        matches_query(SearchQuery { technology: q.technology, ..blank_query(blank) }, a) <==> (
        limited(q.technology@).len() == 0 || exists|i: int|
            0 <= i < a.technologies.len() && #[trigger] a.technologies[i] == limited(
                q.technology@,
            )),
        matches_query(SearchQuery { source: q.source, ..blank_query(blank) }, a) <==> (limited(
            q.source@,
        ).len() == 0 || a.source == limited(q.source@)),
        matches_query(SearchQuery { created_from: q.created_from, ..blank_query(blank) }, a) <==> (
        !is_valid_date(q.created_from@) || !seq_lt(a.created_at, q.created_from@)),
        matches_query(SearchQuery { created_to: q.created_to, ..blank_query(blank) }, a) <==> (
        !is_valid_date(q.created_to@) || !seq_lt(q.created_to@, a.created_at)),
        matches_query(SearchQuery { max_minutes: q.max_minutes, ..blank_query(blank) }, a) <==> (
        max_minutes_of(q.max_minutes@) is None || a.reading_minutes <= max_minutes_of(
            q.max_minutes@,
        ).unwrap()),
{
    lemma_default_query_keeps_all(blank_query(blank), a);
    assert(limited(blank@) =~= Seq::<char>::empty());
    assert(!is_valid_date(blank@));
    assert(max_minutes_of(blank@) is None);
    let text = folded(trim(searchable_text_of(a)));
    if folded(limited(q.keyword@)).len() == 0 {
        assert(text.subrange(0, 0) =~= folded(limited(q.keyword@)));
    }
}

/// The only reading-time limits are 5, 10, 15 and 30 minutes, each read
/// from the decimal digits of the value.
pub proof fn lemma_max_minutes_choices(s: Seq<char>)
    ensures
        max_minutes_of(s) matches Some(n) ==> (n == 5 || n == 10 || n == 15 || n == 30) && parse_u16(s)
            == Some(n),
        parse_u16(s) matches Some(n) ==> ((n == 5 || n == 10 || n == 15 || n == 30) <==> max_minutes_of(
            s,
        ) == Some(n)),
        parse_u16(s) is None ==> max_minutes_of(s) is None,
{
}

/// A query value is cut to its first 200 characters once trimmed: what is
/// kept begins the trimmed value and is 200 characters long, or all of it
/// when shorter.
pub proof fn lemma_limited_prefix(s: Seq<char>)
    ensures
        crate::text::has_prefix(trim(s), limited(s)),
        limited(s).len() == if trim(s).len() <= MAX_QUERY_CHARS {
            trim(s).len()
        } else {
            MAX_QUERY_CHARS as nat
        },
{
    let t = trim(s);
    if t.len() <= MAX_QUERY_CHARS {
        assert(t.take(t.len() as int) =~= t);
    } else {
        assert(t.take(MAX_QUERY_CHARS as int).len() == MAX_QUERY_CHARS);
    }
}

/// The searched text of an article holds each of its fields: its title,
/// every summary paragraph, its source, its genre and every technology.
pub proof fn lemma_searchable_text_holds_fields(a: ArticleView)
    ensures
        occurs_in(searchable_text_of(a), a.title),
        occurs_in(searchable_text_of(a), a.source),
        occurs_in(searchable_text_of(a), a.genre),
        forall|i: int| 0 <= i < a.summary.len() ==> occurs_in(searchable_text_of(a), #[trigger] a.summary[i]),
        forall|i: int|
            0 <= i < a.technologies.len() ==> occurs_in(searchable_text_of(a), #[trigger] a.technologies[i]),
{
    let sp = " "@;
    let e = Seq::<char>::empty();
    let summ = join(a.summary, sp);
    let tech = join(a.technologies, sp);
    let text = searchable_text_of(a);
    // Title.
    let after_title = sp + summ + sp + a.source + sp + a.genre + sp + tech;
    lemma_occurs_in_middle(e, a.title, after_title);
    assert(e + a.title + after_title =~= text);
    // Summary paragraphs.
    let before_summ = a.title + sp;
    let after_summ = sp + a.source + sp + a.genre + sp + tech;
    assert(before_summ + summ + after_summ =~= text);
    assert forall|i: int| 0 <= i < a.summary.len() implies occurs_in(text, #[trigger] a.summary[i]) by {
        lemma_join_holds_parts(a.summary, sp, i);
        lemma_occurs_in_extend(before_summ, summ, after_summ, a.summary[i]);
    }
    // Source.
    let before_source = a.title + sp + summ + sp;
    let after_source = sp + a.genre + sp + tech;
    lemma_occurs_in_middle(before_source, a.source, after_source);
    assert(before_source + a.source + after_source =~= text);
    // Genre.
    let before_genre = a.title + sp + summ + sp + a.source + sp;
    let after_genre = sp + tech;
    lemma_occurs_in_middle(before_genre, a.genre, after_genre);
    assert(before_genre + a.genre + after_genre =~= text);
    // Technologies.
    let before_tech = a.title + sp + summ + sp + a.source + sp + a.genre + sp;
    assert(before_tech + tech + e =~= text);
    assert forall|i: int| 0 <= i < a.technologies.len() implies occurs_in(
        text,
        #[trigger] a.technologies[i],
    ) by {
        lemma_join_holds_parts(a.technologies, sp, i);
        lemma_occurs_in_extend(before_tech, tech, e, a.technologies[i]);
    }
}

/// Each condition's label is its own value: the keyword after `検索: `,
/// the genre, technology and source themselves, the dates with their range
/// mark, and the reading time in minutes; a query with only one value set
/// shows exactly that label, and a query's labels are those of its values
/// one by one, in the order keyword, genre, technology, source, from, to,
/// reading time.
pub proof fn lemma_condition_labels(q: SearchQuery, blank: String)
    requires
        blank@.len() == 0,
    ensures
        conditions_of(SearchQuery { keyword: q.keyword, ..blank_query(blank) }) == if limited(
            q.keyword@,
        ).len() > 0 {
            seq!["検索: "@ + limited(q.keyword@)]
        } else {
            Seq::<Seq<char>>::empty()
        },
        conditions_of(SearchQuery { genre: q.genre, ..blank_query(blank) }) == if limited(
            q.genre@,
        ).len() > 0 {
            seq![limited(q.genre@)]
        } else {
            Seq::<Seq<char>>::empty()
        },
        conditions_of(SearchQuery { technology: q.technology, ..blank_query(blank) }) == if limited(
            q.technology@,
        ).len() > 0 {
            seq![limited(q.technology@)]
        } else {
            Seq::<Seq<char>>::empty()
        },
        conditions_of(SearchQuery { source: q.source, ..blank_query(blank) }) == if limited(
            q.source@,
        ).len() > 0 {
            seq![limited(q.source@)]
        } else {
            Seq::<Seq<char>>::empty()
        },
        conditions_of(SearchQuery { created_from: q.created_from, ..blank_query(blank) })
            == if is_valid_date(q.created_from@) {
            seq!["作成日 "@ + q.created_from@ + "〜"@]
        } else {
            Seq::<Seq<char>>::empty()
        },
        conditions_of(SearchQuery { created_to: q.created_to, ..blank_query(blank) })
            == if is_valid_date(q.created_to@) {
            seq!["作成日 〜"@ + q.created_to@]
        } else {
            Seq::<Seq<char>>::empty()
        },
        conditions_of(SearchQuery { max_minutes: q.max_minutes, ..blank_query(blank) })
            == match max_minutes_of(q.max_minutes@) {
            Some(m) => seq![crate::text::decimal(m as nat) + "分以内"@],
            None => Seq::<Seq<char>>::empty(),
        },
        conditions_of(q) == conditions_of(SearchQuery { keyword: q.keyword, ..blank_query(blank) })
            + conditions_of(SearchQuery { genre: q.genre, ..blank_query(blank) }) + conditions_of(
            SearchQuery { technology: q.technology, ..blank_query(blank) },
        ) + conditions_of(SearchQuery { source: q.source, ..blank_query(blank) }) + conditions_of(
            SearchQuery { created_from: q.created_from, ..blank_query(blank) },
        ) + conditions_of(SearchQuery { created_to: q.created_to, ..blank_query(blank) })
            + conditions_of(SearchQuery { max_minutes: q.max_minutes, ..blank_query(blank) }),
{
    let b = blank_query(blank);
    let a: ArticleView = arbitrary();
    lemma_default_query_keeps_all(b, a);
    assert(limited(blank@) =~= Seq::<char>::empty());
    assert(!is_valid_date(blank@));
    assert(max_minutes_of(blank@) is None);
    let e = Seq::<Seq<char>>::empty();
    let pk = conditions_of(SearchQuery { keyword: q.keyword, ..b });
    let pg = conditions_of(SearchQuery { genre: q.genre, ..b });
    let pt = conditions_of(SearchQuery { technology: q.technology, ..b });
    let ps = conditions_of(SearchQuery { source: q.source, ..b });
    let pf = conditions_of(SearchQuery { created_from: q.created_from, ..b });
    let pd = conditions_of(SearchQuery { created_to: q.created_to, ..b });
    let pm = conditions_of(SearchQuery { max_minutes: q.max_minutes, ..b });
    assert(pk =~= (if limited(q.keyword@).len() > 0 {
        seq!["検索: "@ + limited(q.keyword@)]
    } else {
        e
    }) + e + e + e + e + e + e);
    assert(pg =~= e + (if limited(q.genre@).len() > 0 {
        seq![limited(q.genre@)]
    } else {
        e
    }) + e + e + e + e + e);
    assert(pt =~= e + e + (if limited(q.technology@).len() > 0 {
        seq![limited(q.technology@)]
    } else {
        e
    }) + e + e + e + e);
    assert(ps =~= e + e + e + (if limited(q.source@).len() > 0 {
        seq![limited(q.source@)]
    } else {
        e
    }) + e + e + e);
    assert(pf =~= e + e + e + e + (if is_valid_date(q.created_from@) {
        seq!["作成日 "@ + q.created_from@ + "〜"@]
    } else {
        e
    }) + e + e);
    assert(pd =~= e + e + e + e + e + (if is_valid_date(q.created_to@) {
        seq!["作成日 〜"@ + q.created_to@]
    } else {
        e
    }) + e);
    assert(pm =~= e + e + e + e + e + e + match max_minutes_of(q.max_minutes@) {
        Some(m) => seq![crate::text::decimal(m as nat) + "分以内"@],
        None => e,
    });
    assert(conditions_of(q) =~= pk + pg + pt + ps + pf + pd + pm);
}

} // verus!
