//! The rules that every article record, and every collection of them, must
//! keep.
use chrono::{Datelike, NaiveDate};
use vstd::prelude::*;

use crate::model::{Article, ArticleView, article_views};
use crate::text::{
    all_white_space, chars_of, extend_str, is_ascii_alnum, is_blank, string_of,
    text_eq,
};
use crate::search::{is_valid_date, valid_date};
use crate::text::{all_digits, digits_value, is_digit_char, lemma_digits_order, lemma_seq_lt_split, seq_lt};
use crate::weburl::{WebUrl, url_parse_result};

verus! {

/// The date format of article records.
pub const DATE_FORMAT: &'static str = "%Y-%m-%d";

/// Why a date that the calendar has is still refused: it must be written
/// with four digits for the year and two each for the month and the day.
pub const DATE_DIGITS: &'static str = "年4桁・月2桁・日2桁で書いてください";

/// What `chrono::NaiveDate::parse_from_str` gives for a text and a format:
/// the year, month and day of the date, or the text of its error.
pub uninterp spec fn date_parse_result(input: Seq<char>, format: Seq<char>) -> Result<
    (int, int, int),
    Seq<char>,
>;

/// `chrono::NaiveDate::parse_from_str`, the date taken apart into year,
/// month and day: the result is the named parse result. With the format
/// `%Y-%m-%d`, a date that the calendar has, written with 4-2-2 digits,
/// parses to the year, month and day that its digits spell (chrono reads
/// up to four digits for an unsigned year and two each for the month and
/// the day, then checks the calendar).
#[verifier::external_body]
fn parse_date(input: &str, format: &str) -> (r: Result<(i32, u32, u32), String>)
    ensures
        date_view(r) == date_parse_result(input@, format@),
        format@ == DATE_FORMAT@ && is_valid_date(input@) ==> date_view(r) == parsed_date(
            date_digits(input@),
        ),
{
    match NaiveDate::parse_from_str(input, format) {
        Ok(date) => Ok((date.year(), date.month(), date.day())),
        Err(error) => Err(error.to_string()),
    }
}

/// Whether the calendar date `a` is earlier than `b`.
pub open spec fn date_before(a: (int, int, int), b: (int, int, int)) -> bool {
    a.0 < b.0 || (a.0 == b.0 && (a.1 < b.1 || (a.1 == b.1 && a.2 < b.2)))
}

/// Why an article record is not valid.
#[derive(Debug, PartialEq, Eq)]
pub enum ArticleError {
    /// A required text (its field named) is empty or only white space.
    EmptyText(String),
    /// The id holds a character other than ASCII letters, digits, `-`, `_`.
    InvalidId,
    /// The url does not parse; the parser's message.
    InvalidUrl(String),
    /// The url is neither http nor https.
    UnsupportedScheme,
    /// The reading time is zero.
    ZeroReadingMinutes,
    /// No technology, or a blank one.
    EmptyTechnologies,
    /// No summary paragraph, or a blank one.
    EmptySummary,
    /// The creation date is not `YYYY-MM-DD`; the parser's message, or
    /// the digit rule when only the digit counts are wrong.
    InvalidCreatedAt(String),
    /// The update date is not `YYYY-MM-DD`; as for the creation date.
    InvalidUpdatedAt(String),
    /// The update date is before the creation date.
    UpdatedBeforeCreated,
}

/// The value of an [`ArticleError`].
pub enum ArticleFault {
    EmptyText(Seq<char>),
    InvalidId,
    InvalidUrl(Seq<char>),
    UnsupportedScheme,
    ZeroReadingMinutes,
    EmptyTechnologies,
    EmptySummary,
    InvalidCreatedAt(Seq<char>),
    InvalidUpdatedAt(Seq<char>),
    UpdatedBeforeCreated,
}

impl View for ArticleError {
    type V = ArticleFault;

    open spec fn view(&self) -> ArticleFault {
        match self {
            ArticleError::EmptyText(f) => ArticleFault::EmptyText(f@),
            ArticleError::InvalidId => ArticleFault::InvalidId,
            ArticleError::InvalidUrl(e) => ArticleFault::InvalidUrl(e@),
            ArticleError::UnsupportedScheme => ArticleFault::UnsupportedScheme,
            ArticleError::ZeroReadingMinutes => ArticleFault::ZeroReadingMinutes,
            ArticleError::EmptyTechnologies => ArticleFault::EmptyTechnologies,
            ArticleError::EmptySummary => ArticleFault::EmptySummary,
            ArticleError::InvalidCreatedAt(e) => ArticleFault::InvalidCreatedAt(e@),
            ArticleError::InvalidUpdatedAt(e) => ArticleFault::InvalidUpdatedAt(e@),
            ArticleError::UpdatedBeforeCreated => ArticleFault::UpdatedBeforeCreated,
        }
    }
}

/// The message shown for an article fault.
pub open spec fn article_fault_message(f: ArticleFault) -> Seq<char> {
    match f {
        ArticleFault::EmptyText(field) => field + " は空にできません"@,
        ArticleFault::InvalidId => "id は英数字、ハイフン、アンダースコアだけを使用してください"@,
        ArticleFault::InvalidUrl(e) => "url が不正です: "@ + e,
        ArticleFault::UnsupportedScheme => "url は http または https で指定してください"@,
        ArticleFault::ZeroReadingMinutes => "reading_minutes は1以上にしてください"@,
        ArticleFault::EmptyTechnologies => "technologies は空でない値を1件以上指定してください"@,
        ArticleFault::EmptySummary => "summary は空でない段落を1件以上指定してください"@,
        ArticleFault::InvalidCreatedAt(e) => "created_at は YYYY-MM-DD で指定してください: "@ + e,
        ArticleFault::InvalidUpdatedAt(e) => "updated_at は YYYY-MM-DD で指定してください: "@ + e,
        ArticleFault::UpdatedBeforeCreated => "updated_at は created_at 以降にしてください"@,
    }
}

impl ArticleError {
    /// The message of the error.
    pub fn message(&self) -> (m: String)
        ensures
            m@ == article_fault_message(self@),
    {
        let mut out: Vec<char> = Vec::new();
        match self {
            ArticleError::EmptyText(field) => {
                extend_str(&mut out, field.as_str());
                extend_str(&mut out, " は空にできません");
            },
            ArticleError::InvalidId => {
                extend_str(&mut out, "id は英数字、ハイフン、アンダースコアだけを使用してください");
            },
            ArticleError::InvalidUrl(e) => {
                extend_str(&mut out, "url が不正です: ");
                extend_str(&mut out, e.as_str());
            },
            ArticleError::UnsupportedScheme => {
                extend_str(&mut out, "url は http または https で指定してください");
            },
            ArticleError::ZeroReadingMinutes => {
                extend_str(&mut out, "reading_minutes は1以上にしてください");
            },
            ArticleError::EmptyTechnologies => {
                extend_str(&mut out, "technologies は空でない値を1件以上指定してください");
            },
            ArticleError::EmptySummary => {
                extend_str(&mut out, "summary は空でない段落を1件以上指定してください");
            },
            ArticleError::InvalidCreatedAt(e) => {
                extend_str(&mut out, "created_at は YYYY-MM-DD で指定してください: ");
                extend_str(&mut out, e.as_str());
            },
            ArticleError::InvalidUpdatedAt(e) => {
                extend_str(&mut out, "updated_at は YYYY-MM-DD で指定してください: ");
                extend_str(&mut out, e.as_str());
            },
            ArticleError::UpdatedBeforeCreated => {
                extend_str(&mut out, "updated_at は created_at 以降にしてください");
            },
        }
        string_of(&out)
    }
}

/// Why a collection of article records is not valid.
#[derive(Debug, PartialEq, Eq)]
pub enum ValidationError {
    /// The article with this id is not valid.
    Article { id: String, error: ArticleError },
    /// Two articles share this id.
    DuplicateId(String),
    /// Two articles share this url.
    DuplicateUrl(String),
}

/// The value of a [`ValidationError`].
pub enum CollectionFault {
    Article(Seq<char>, ArticleFault),
    DuplicateId(Seq<char>),
    DuplicateUrl(Seq<char>),
}

impl View for ValidationError {
    type V = CollectionFault;

    open spec fn view(&self) -> CollectionFault {
        match self {
            ValidationError::Article { id, error } => CollectionFault::Article(id@, error@),
            ValidationError::DuplicateId(id) => CollectionFault::DuplicateId(id@),
            ValidationError::DuplicateUrl(url) => CollectionFault::DuplicateUrl(url@),
        }
    }
}

/// The message shown for a collection fault.
pub open spec fn collection_fault_message(f: CollectionFault) -> Seq<char> {
    match f {
        CollectionFault::Article(id, e) => id + ": "@ + article_fault_message(e),
        CollectionFault::DuplicateId(id) => "id が重複しています: "@ + id,
        CollectionFault::DuplicateUrl(url) => "url が重複しています: "@ + url,
    }
}

impl ValidationError {
    /// The message of the error.
    pub fn message(&self) -> (m: String)
        ensures
            m@ == collection_fault_message(self@),
    {
        let mut out: Vec<char> = Vec::new();
        match self {
            ValidationError::Article { id, error } => {
                extend_str(&mut out, id.as_str());
                extend_str(&mut out, ": ");
                let inner = error.message();
                extend_str(&mut out, inner.as_str());
            },
            ValidationError::DuplicateId(id) => {
                extend_str(&mut out, "id が重複しています: ");
                extend_str(&mut out, id.as_str());
            },
            ValidationError::DuplicateUrl(url) => {
                extend_str(&mut out, "url が重複しています: ");
                extend_str(&mut out, url.as_str());
            },
        }
        string_of(&out)
    }
}

/// A character that an id may hold.
pub open spec fn is_id_char(c: char) -> bool {
    is_ascii_alnum(c) || c == '-' || c == '_'
}

/// The characters that an id may hold are exactly the ASCII digits, the
/// ASCII letters of either case, `-` and `_`.
pub proof fn lemma_id_chars(c: char)
    ensures
        is_id_char(c) <==> (('0' <= c && c <= '9') || ('a' <= c && c <= 'z') || ('A' <= c && c
            <= 'Z') || c == '-' || c == '_'),
{
}

/// The id rule of an article: giving an article that keeps every rule a
/// non-blank id made of ASCII digits, ASCII letters of either case, `-`
/// and `_` keeps it valid; an id with any other character is refused, and
/// for an article that keeps every other rule that is the fault reported.
pub proof fn lemma_id_rule(a: ArticleView, id: Seq<char>)
    ensures
        article_rules_hold(a) && !all_white_space(id) && (forall|k: int|
            0 <= k < id.len() ==> ('0' <= #[trigger] id[k] && id[k] <= '9') || ('a' <= id[k]
                && id[k] <= 'z') || ('A' <= id[k] && id[k] <= 'Z') || id[k] == '-' || id[k]
                == '_') ==> article_rules_hold(ArticleView { id, ..a }),
        (exists|k: int|
            0 <= k < id.len() && !(('0' <= #[trigger] id[k] && id[k] <= '9') || ('a' <= id[k]
                && id[k] <= 'z') || ('A' <= id[k] && id[k] <= 'Z') || id[k] == '-' || id[k]
                == '_')) ==> !article_rules_hold(ArticleView { id, ..a }),
        article_rules_hold(a) && !all_white_space(id) && (exists|k: int|
            0 <= k < id.len() && !(('0' <= #[trigger] id[k] && id[k] <= '9') || ('a' <= id[k]
                && id[k] <= 'z') || ('A' <= id[k] && id[k] <= 'Z') || id[k] == '-' || id[k]
                == '_')) ==> article_fault(ArticleView { id, ..a }) == Some(ArticleFault::InvalidId),
{
    let b = ArticleView { id, ..a };
    if exists|k: int|
        0 <= k < id.len() && !(('0' <= #[trigger] id[k] && id[k] <= '9') || ('a' <= id[k] && id[k]
            <= 'z') || ('A' <= id[k] && id[k] <= 'Z') || id[k] == '-' || id[k] == '_') {
        let k = choose|k: int|
            0 <= k < id.len() && !(('0' <= #[trigger] id[k] && id[k] <= '9') || ('a' <= id[k]
                && id[k] <= 'z') || ('A' <= id[k] && id[k] <= 'Z') || id[k] == '-' || id[k]
                == '_');
        assert(!is_id_char(b.id[k]));
    }
}

/// The text, reading-time and list rules of an article, each taken alone:
/// in an article that keeps every rule, a new title, source or genre is
/// refused exactly when it is blank; a new reading time exactly when it is
/// zero; a new list of technologies or summary paragraphs exactly when it
/// is empty or holds a blank entry; and each refusal names that rule. An
/// update on the day of the creation is accepted.
pub proof fn lemma_record_rules(a: ArticleView, t: Seq<char>, m: u16, list: Seq<Seq<char>>)
    requires
        article_rules_hold(a),
    ensures
        article_rules_hold(ArticleView { title: t, ..a }) <==> !all_white_space(t),
        all_white_space(t) ==> article_fault(ArticleView { title: t, ..a }) == Some(
            ArticleFault::EmptyText("title"@),
        ),
        article_rules_hold(ArticleView { source: t, ..a }) <==> !all_white_space(t),
        all_white_space(t) ==> article_fault(ArticleView { source: t, ..a }) == Some(
            ArticleFault::EmptyText("source"@),
        ),
        article_rules_hold(ArticleView { genre: t, ..a }) <==> !all_white_space(t),
        all_white_space(t) ==> article_fault(ArticleView { genre: t, ..a }) == Some(
            ArticleFault::EmptyText("genre"@),
        ),
        article_rules_hold(ArticleView { reading_minutes: m, ..a }) <==> m >= 1,
        m == 0 ==> article_fault(ArticleView { reading_minutes: m, ..a }) == Some(
            ArticleFault::ZeroReadingMinutes,
        ),
        article_rules_hold(ArticleView { technologies: list, ..a }) <==> (list.len() > 0 && forall|
            k: int,
        | 0 <= k < list.len() ==> !all_white_space(#[trigger] list[k])),
        !(list.len() > 0 && forall|k: int| 0 <= k < list.len() ==> !all_white_space(#[trigger] list[k]))
            ==> article_fault(ArticleView { technologies: list, ..a }) == Some(
            ArticleFault::EmptyTechnologies,
        ),
        article_rules_hold(ArticleView { summary: list, ..a }) <==> (list.len() > 0 && forall|
            k: int,
        | 0 <= k < list.len() ==> !all_white_space(#[trigger] list[k])),
        !(list.len() > 0 && forall|k: int| 0 <= k < list.len() ==> !all_white_space(#[trigger] list[k]))
            ==> article_fault(ArticleView { summary: list, ..a }) == Some(ArticleFault::EmptySummary),
        article_rules_hold(ArticleView { updated_at: a.created_at, ..a }),
{
    crate::text::lemma_seq_lt_irreflexive(a.created_at);
}

/// Some entry of the list is blank.
pub open spec fn has_blank(list: Seq<Seq<char>>) -> bool {
    exists|k: int| 0 <= k < list.len() && all_white_space(#[trigger] list[k])
}

/// The first date rule that an article breaks, given its creation and
/// update dates and what parsing each gave: a parse error, a date not
/// written with 4-2-2 digits, or an update before the creation.
pub open spec fn dates_fault(
    created_at: Seq<char>,
    created: Result<(int, int, int), Seq<char>>,
    updated_at: Seq<char>,
    updated: Result<(int, int, int), Seq<char>>,
) -> Option<ArticleFault> {
    match created {
        Err(e) => Some(ArticleFault::InvalidCreatedAt(e)),
        Ok(c) => if !is_valid_date(created_at) {
            Some(ArticleFault::InvalidCreatedAt(DATE_DIGITS@))
        } else {
            match updated {
                Err(e) => Some(ArticleFault::InvalidUpdatedAt(e)),
                Ok(u) => if !is_valid_date(updated_at) {
                    Some(ArticleFault::InvalidUpdatedAt(DATE_DIGITS@))
                } else if date_before(u, c) {
                    Some(ArticleFault::UpdatedBeforeCreated)
                } else {
                    None
                },
            }
        },
    }
}

/// A successful date parse of the given year, month and day.
pub open spec fn parsed_date(ymd: (int, int, int)) -> Result<(int, int, int), Seq<char>> {
    Ok(ymd)
}

/// A date parse result with its parts as integers and its error as text.
pub open spec fn date_view(r: Result<(i32, u32, u32), String>) -> Result<(int, int, int), Seq<char>> {
    match r {
        Ok((y, m, d)) => Ok((y as int, m as int, d as int)),
        Err(e) => Err(e@),
    }
}

/// Checks the dates of an article given what parsing each gave.
pub fn check_dates(
    created_at: &str,
    created: Result<(i32, u32, u32), String>,
    updated_at: &str,
    updated: Result<(i32, u32, u32), String>,
) -> (r: Result<(), ArticleError>)
    ensures
        r is Ok <==> dates_fault(created_at@, date_view(created), updated_at@, date_view(updated)) is None,
        r matches Err(e) ==> dates_fault(created_at@, date_view(created), updated_at@, date_view(updated)) == Some(e@),
{
    let c = match created {
        Ok(d) => d,
        Err(e) => return Err(ArticleError::InvalidCreatedAt(e)),
    };
    if valid_date(created_at).is_none() {
        return Err(ArticleError::InvalidCreatedAt(DATE_DIGITS.to_owned()));
    }
    let u = match updated {
        Ok(d) => d,
        Err(e) => return Err(ArticleError::InvalidUpdatedAt(e)),
    };
    if valid_date(updated_at).is_none() {
        return Err(ArticleError::InvalidUpdatedAt(DATE_DIGITS.to_owned()));
    }
    if u.0 < c.0 || (u.0 == c.0 && (u.1 < c.1 || (u.1 == c.1 && u.2 < c.2))) {
        return Err(ArticleError::UpdatedBeforeCreated);
    }
    Ok(())
}

/// Every rule of an article record, stated directly.
pub open spec fn article_rules_hold(a: ArticleView) -> bool {
    &&& !all_white_space(a.id)
    &&& !all_white_space(a.title)
    &&& !all_white_space(a.source)
    &&& !all_white_space(a.genre)
    &&& forall|k: int| 0 <= k < a.id.len() ==> is_id_char(#[trigger] a.id[k])
    &&& url_parse_result(a.url) matches Ok((_, scheme)) && (scheme == "http"@ || scheme == "https"@)
    &&& a.reading_minutes >= 1
    &&& a.technologies.len() > 0 && !has_blank(a.technologies)
    &&& a.summary.len() > 0 && !has_blank(a.summary)
    &&& is_valid_date(a.created_at)
    &&& is_valid_date(a.updated_at)
    &&& !seq_lt(a.updated_at, a.created_at)
}

/// The first rule, in the order they are checked, that the article breaks;
/// none when it keeps them all.
pub open spec fn article_fault(a: ArticleView) -> Option<ArticleFault> {
    if all_white_space(a.id) {
        Some(ArticleFault::EmptyText("id"@))
    } else if all_white_space(a.title) {
        Some(ArticleFault::EmptyText("title"@))
    } else if all_white_space(a.source) {
        Some(ArticleFault::EmptyText("source"@))
    } else if all_white_space(a.genre) {
        Some(ArticleFault::EmptyText("genre"@))
    } else if !(forall|k: int| 0 <= k < a.id.len() ==> is_id_char(#[trigger] a.id[k])) {
        Some(ArticleFault::InvalidId)
    } else {
        match url_parse_result(a.url) {
            Err(e) => Some(ArticleFault::InvalidUrl(e)),
            Ok((_, scheme)) => if !(scheme == "http"@ || scheme == "https"@) {
                Some(ArticleFault::UnsupportedScheme)
            } else if a.reading_minutes == 0 {
                Some(ArticleFault::ZeroReadingMinutes)
            } else if a.technologies.len() == 0 || has_blank(a.technologies) {
                Some(ArticleFault::EmptyTechnologies)
            } else if a.summary.len() == 0 || has_blank(a.summary) {
                Some(ArticleFault::EmptySummary)
            } else {
                dates_fault(
                    a.created_at,
                    date_parse_result(a.created_at, DATE_FORMAT@),
                    a.updated_at,
                    date_parse_result(a.updated_at, DATE_FORMAT@),
                )
            },
        }
    }
}

/// Fails, naming the field, when the text is blank.
pub fn require_text(field: &str, value: &str) -> (r: Result<(), ArticleError>)
    ensures
        r is Ok <==> !all_white_space(value@),
        r matches Err(e) ==> e@ == ArticleFault::EmptyText(field@),
{
    if is_blank(value) {
        let mut name: Vec<char> = Vec::new();
        extend_str(&mut name, field);
        return Err(ArticleError::EmptyText(string_of(&name)));
    }
    Ok(())
}

fn is_valid_id(id: &str) -> (b: bool)
    ensures
        b == forall|k: int| 0 <= k < id@.len() ==> is_id_char(#[trigger] id@[k]),
{
    let cs = chars_of(id);
    let mut i: usize = 0;
    while i < cs.len()
        invariant
            i <= cs.len(),
            cs@ == id@,
            forall|k: int| 0 <= k < i ==> is_id_char(#[trigger] id@[k]),
        decreases cs.len() - i,
    {
        let c = cs[i];
        if !(('0' <= c && c <= '9') || ('a' <= c && c <= 'z') || ('A' <= c && c <= 'Z') || c
            == '-' || c == '_') {
            return false;
        }
        i = i + 1;
    }
    true
}

fn any_blank(list: &Vec<String>) -> (b: bool)
    ensures
        b == has_blank(crate::text::views(list@)),
{
    let mut i: usize = 0;
    while i < list.len()
        invariant
            i <= list.len(),
            forall|k: int| 0 <= k < i ==> !all_white_space(#[trigger] list@[k]@),
        decreases list.len() - i,
    {
        if is_blank(list[i].as_str()) {
            assert(all_white_space(crate::text::views(list@)[i as int]));
            return true;
        }
        i = i + 1;
    }
    proof {
        if has_blank(crate::text::views(list@)) {
            let k = choose|k: int|
                0 <= k < list@.len() && all_white_space(#[trigger] crate::text::views(list@)[k]);
            assert(all_white_space(list@[k]@));
        }
    }
    false
}

/// Checks the rules of one article record, in order, and names the first
/// one broken: non-blank id, title, source and genre; an id of ASCII
/// letters, digits, `-` and `_`; an http or https url; a reading time of
/// at least one minute; non-blank technologies and summary paragraphs, at
/// least one of each; `YYYY-MM-DD` dates, the update not before the
/// creation. A date must exist in the calendar and be written with a
/// four-digit year and two-digit month and day.
pub fn validate_article(article: &Article) -> (r: Result<(), ArticleError>)
    ensures
        r is Ok <==> article_fault(article@) is None,
        r matches Err(e) ==> article_fault(article@) == Some(e@),
        r is Ok <==> article_rules_hold(article@),
{
    require_text("id", article.id.as_str())?;
    require_text("title", article.title.as_str())?;
    require_text("source", article.source.as_str())?;
    require_text("genre", article.genre.as_str())?;
    if !is_valid_id(article.id.as_str()) {
        return Err(ArticleError::InvalidId);
    }
    let url = match WebUrl::parse(article.url.as_str()) {
        Ok(url) => url,
        Err(e) => return Err(ArticleError::InvalidUrl(e)),
    };
    if !(text_eq(url.scheme(), "http") || text_eq(url.scheme(), "https")) {
        return Err(ArticleError::UnsupportedScheme);
    }
    if article.reading_minutes == 0 {
        return Err(ArticleError::ZeroReadingMinutes);
    }
    if article.technologies.len() == 0 || any_blank(&article.technologies) {
        return Err(ArticleError::EmptyTechnologies);
    }
    if article.summary.len() == 0 || any_blank(&article.summary) {
        return Err(ArticleError::EmptySummary);
    }
    let created = parse_date(article.created_at.as_str(), DATE_FORMAT);
    let updated = parse_date(article.updated_at.as_str(), DATE_FORMAT);
    proof {
        if is_valid_date(article@.created_at) && is_valid_date(article@.updated_at) {
            lemma_date_text_order(article@.updated_at, article@.created_at);
        }
    }
    check_dates(article.created_at.as_str(), created, article.updated_at.as_str(), updated)
}

/// The fault of the article at position `i`, given the ones before it: its
/// own, else an id or url that an earlier article has.
pub open spec fn fault_at(all: Seq<ArticleView>, i: int) -> Option<CollectionFault> {
    match article_fault(all[i]) {
        Some(f) => Some(CollectionFault::Article(all[i].id, f)),
        None => if exists|j: int| 0 <= j < i && #[trigger] all[j].id == all[i].id {
            Some(CollectionFault::DuplicateId(all[i].id))
        } else if exists|j: int| 0 <= j < i && #[trigger] all[j].url == all[i].url {
            Some(CollectionFault::DuplicateUrl(all[i].url))
        } else {
            None
        },
    }
}

/// The fault of the first article, in order, that has one.
pub open spec fn collection_fault(all: Seq<ArticleView>) -> Option<CollectionFault>
    decreases all.len(),
{
    if all.len() == 0 {
        None
    } else {
        match collection_fault(all.drop_last()) {
            Some(f) => Some(f),
            None => fault_at(all, all.len() - 1),
        }
    }
}

proof fn lemma_fault_at_prefix(all: Seq<ArticleView>, n: int, i: int)
    requires
        0 <= i < n <= all.len(),
    ensures
        fault_at(all.take(n), i) == fault_at(all, i),
{
    let t = all.take(n);
    assert(t[i] == all[i]);
    assert((exists|j: int| 0 <= j < i && #[trigger] t[j].id == t[i].id) == (exists|j: int|
        0 <= j < i && #[trigger] all[j].id == all[i].id)) by {
        if exists|j: int| 0 <= j < i && #[trigger] all[j].id == all[i].id {
            let j = choose|j: int| 0 <= j < i && #[trigger] all[j].id == all[i].id;
            assert(t[j].id == t[i].id);
        }
    }
    assert((exists|j: int| 0 <= j < i && #[trigger] t[j].url == t[i].url) == (exists|j: int|
        0 <= j < i && #[trigger] all[j].url == all[i].url)) by {
        if exists|j: int| 0 <= j < i && #[trigger] all[j].url == all[i].url {
            let j = choose|j: int| 0 <= j < i && #[trigger] all[j].url == all[i].url;
            assert(t[j].url == t[i].url);
        }
    }
}

/// Checks every article, in order, and names the first fault: an article
/// that breaks a rule, or one whose id or url an earlier article has.
pub fn validate_collection(articles: &[Article]) -> (r: Result<(), ValidationError>)
    ensures
        r is Ok <==> collection_fault(article_views(articles@)) is None,
        r matches Err(e) ==> collection_fault(article_views(articles@)) == Some(e@),
{
    let ghost all = article_views(articles@);
    let mut i: usize = 0;
    while i < articles.len()
        invariant
            i <= articles.len(),
            all == article_views(articles@),
            collection_fault(all.take(i as int)) is None,
        decreases articles.len() - i,
    {
        let article = &articles[i];
        proof {
            let t = all.take(i + 1);
            assert(t.drop_last() =~= all.take(i as int));
            lemma_fault_at_prefix(all, i + 1, i as int);
            assert(t[i as int] == article@);
        }
        match validate_article(article) {
            Ok(()) => {},
            Err(error) => {
                let mut id: Vec<char> = Vec::new();
                extend_str(&mut id, article.id.as_str());
                let e = ValidationError::Article { id: string_of(&id), error };
                proof {
                    lemma_first_fault(all, i as int);
                }
                return Err(e);
            },
        }
        let mut j: usize = 0;
        while j < i
            invariant
                j <= i < articles.len(),
                all == article_views(articles@),
                forall|m: int| 0 <= m < j ==> #[trigger] all[m].id != all[i as int].id,
                article@ == all[i as int],
                collection_fault(all.take(i as int)) is None,
                article_fault(all[i as int]) is None,
            decreases i - j,
        {
            if text_eq(articles[j].id.as_str(), article.id.as_str()) {
                let mut id: Vec<char> = Vec::new();
                extend_str(&mut id, article.id.as_str());
                proof {
                    assert(all[j as int] == articles@[j as int]@);
                    assert(all[j as int].id == all[i as int].id);
                    lemma_first_fault(all, i as int);
                }
                return Err(ValidationError::DuplicateId(string_of(&id)));
            }
            j = j + 1;
        }
        let mut j: usize = 0;
        while j < i
            invariant
                j <= i < articles.len(),
                all == article_views(articles@),
                forall|m: int| 0 <= m < j ==> #[trigger] all[m].url != all[i as int].url,
                forall|m: int| 0 <= m < i ==> #[trigger] all[m].id != all[i as int].id,
                article@ == all[i as int],
                collection_fault(all.take(i as int)) is None,
                article_fault(all[i as int]) is None,
            decreases i - j,
        {
            if text_eq(articles[j].url.as_str(), article.url.as_str()) {
                let mut url: Vec<char> = Vec::new();
                extend_str(&mut url, article.url.as_str());
                proof {
                    assert(all[j as int] == articles@[j as int]@);
                    assert(all[j as int].url == all[i as int].url);
                    lemma_first_fault(all, i as int);
                }
                return Err(ValidationError::DuplicateUrl(string_of(&url)));
            }
            j = j + 1;
        }
        i = i + 1;
    }
    assert(all.take(articles.len() as int) =~= all);
    Ok(())
}

/// When no article before `i` has a fault, the collection's fault is that
/// of article `i` if it has one.
proof fn lemma_first_fault(all: Seq<ArticleView>, i: int)
    requires
        0 <= i < all.len(),
        collection_fault(all.take(i)) is None,
        fault_at(all, i) is Some,
    ensures
        collection_fault(all) == fault_at(all, i),
    decreases all.len(),
{
    if i == all.len() - 1 {
        assert(all.drop_last() =~= all.take(i));
    } else {
        let d = all.drop_last();
        assert(d.take(i) =~= all.take(i));
        assert(fault_at(d, i) == fault_at(all, i)) by {
            lemma_fault_at_prefix(all, all.len() - 1, i);
        }
        lemma_first_fault(d, i);
    }
}

} // verus!

verus! {

/// In a collection that passes, every article passes on its own, and no
/// two articles share an id or a url.
pub proof fn lemma_valid_collection(all: Seq<ArticleView>)
    requires
        collection_fault(all) is None,
    ensures
        forall|i: int| 0 <= i < all.len() ==> article_fault(#[trigger] all[i]) is None,
        forall|i: int, j: int|
            0 <= i < j < all.len() ==> #[trigger] all[i].id != #[trigger] all[j].id,
        forall|i: int, j: int|
            0 <= i < j < all.len() ==> #[trigger] all[i].url != #[trigger] all[j].url,
    decreases all.len(),
{
    if all.len() > 0 {
        let d = all.drop_last();
        let n = all.len() - 1;
        lemma_valid_collection(d);
        assert(fault_at(all, n) is None);
        assert forall|i: int| 0 <= i < all.len() implies article_fault(#[trigger] all[i]) is None by {
            if i < n {
                assert(d[i] == all[i]);
            }
        }
        assert forall|i: int, j: int| 0 <= i < j < all.len() implies #[trigger] all[i].id
            != #[trigger] all[j].id by {
            if j < n {
                assert(d[i] == all[i] && d[j] == all[j]);
            } else if all[i].id == all[j].id {
                assert(exists|m: int| 0 <= m < n && #[trigger] all[m].id == all[n].id);
            }
        }
        assert forall|i: int, j: int| 0 <= i < j < all.len() implies #[trigger] all[i].url
            != #[trigger] all[j].url by {
            if j < n {
                assert(d[i] == all[i] && d[j] == all[j]);
            } else if all[i].url == all[j].url {
                assert(exists|m: int| 0 <= m < n && #[trigger] all[m].url == all[n].url);
            }
        }
    }
}

/// A collection whose every article passes on its own, with no id and no
/// url twice, passes.
pub proof fn lemma_collection_passes(all: Seq<ArticleView>)
    requires
        forall|i: int| 0 <= i < all.len() ==> article_fault(#[trigger] all[i]) is None,
        forall|i: int, j: int|
            0 <= i < j < all.len() ==> #[trigger] all[i].id != #[trigger] all[j].id,
        forall|i: int, j: int|
            0 <= i < j < all.len() ==> #[trigger] all[i].url != #[trigger] all[j].url,
    ensures
        collection_fault(all) is None,
    decreases all.len(),
{
    if all.len() > 0 {
        let d = all.drop_last();
        let n = all.len() - 1;
        assert forall|i: int, j: int| 0 <= i < j < d.len() implies #[trigger] d[i].id
            != #[trigger] d[j].id by {
            assert(d[i] == all[i] && d[j] == all[j]);
        }
        assert forall|i: int, j: int| 0 <= i < j < d.len() implies #[trigger] d[i].url
            != #[trigger] d[j].url by {
            assert(d[i] == all[i] && d[j] == all[j]);
        }
        assert forall|i: int| 0 <= i < d.len() implies article_fault(#[trigger] d[i]) is None by {
            assert(d[i] == all[i]);
        }
        lemma_collection_passes(d);
        assert(article_fault(all[n]) is None);
        if exists|j: int| 0 <= j < n && #[trigger] all[j].id == all[n].id {
            let j = choose|j: int| 0 <= j < n && #[trigger] all[j].id == all[n].id;
            assert(all[j].id != all[n].id);
        }
        if exists|j: int| 0 <= j < n && #[trigger] all[j].url == all[n].url {
            let j = choose|j: int| 0 <= j < n && #[trigger] all[j].url == all[n].url;
            assert(all[j].url != all[n].url);
        }
    }
}

/// No article before position `k` has a fault: the first `k` pass.
proof fn lemma_clean_prefix(all: Seq<ArticleView>, k: int)
    requires
        0 <= k <= all.len(),
        forall|j: int| 0 <= j < k ==> fault_at(all, j) is None,
    ensures
        collection_fault(all.take(k)) is None,
    decreases k,
{
    if k > 0 {
        lemma_clean_prefix(all, k - 1);
        assert(all.take(k).drop_last() =~= all.take(k - 1));
        lemma_fault_at_prefix(all, k, k - 1);
    }
}

/// The fault of a collection is that of the least position that has one,
/// checked as the article itself, then its id, then its url; none when no
/// position has one.
pub proof fn lemma_collection_fault_least(all: Seq<ArticleView>)
    ensures
        forall|k: int|
            0 <= k < all.len() && #[trigger] fault_at(all, k) is Some && (forall|j: int|
                0 <= j < k ==> fault_at(all, j) is None) ==> collection_fault(all) == fault_at(
                all,
                k,
            ),
        (forall|k: int| 0 <= k < all.len() ==> #[trigger] fault_at(all, k) is None)
            ==> collection_fault(all) is None,
{
    assert forall|k: int|
        0 <= k < all.len() && #[trigger] fault_at(all, k) is Some && (forall|j: int|
            0 <= j < k ==> fault_at(all, j) is None) implies collection_fault(all) == fault_at(
        all,
        k,
    ) by {
        lemma_clean_prefix(all, k);
        lemma_first_fault(all, k);
    }
    if forall|k: int| 0 <= k < all.len() ==> #[trigger] fault_at(all, k) is None {
        lemma_clean_prefix(all, all.len() as int);
        assert(all.take(all.len() as int) =~= all);
    }
}

/// The year, month and day that a `YYYY-MM-DD` text spells.
pub open spec fn date_digits(s: Seq<char>) -> (int, int, int) {
    (
        digits_value(s.subrange(0, 4)),
        digits_value(s.subrange(5, 7)),
        digits_value(s.subrange(8, 10)),
    )
}

/// The digits of a date between two hyphens.
proof fn lemma_digit_block(s: Seq<char>, i: int, j: int)
    requires
        is_valid_date(s),
        0 <= i <= j <= 10,
        !(i <= 4 < j),
        !(i <= 7 < j),
    ensures
        all_digits(s.subrange(i, j)),
{
    assert forall|k: int| 0 <= k < j - i implies is_digit_char(#[trigger] s.subrange(i, j)[k]) by {
        assert(s.subrange(i, j)[k] == s[i + k]);
    }
}

/// Between two `YYYY-MM-DD` dates that the calendar has, the order of the
/// texts is the order of the dates.
pub proof fn lemma_date_text_order(u: Seq<char>, c: Seq<char>)
    requires
        is_valid_date(u),
        is_valid_date(c),
    ensures
        seq_lt(u, c) == date_before(date_digits(u), date_digits(c)),
{
    lemma_digit_block(u, 0, 4);
    lemma_digit_block(c, 0, 4);
    lemma_digit_block(u, 5, 7);
    lemma_digit_block(c, 5, 7);
    lemma_digit_block(u, 8, 10);
    lemma_digit_block(c, 8, 10);
    lemma_digits_order(u.subrange(0, 4), c.subrange(0, 4));
    lemma_digits_order(u.subrange(5, 7), c.subrange(5, 7));
    lemma_digits_order(u.subrange(8, 10), c.subrange(8, 10));
    // Year, then the rest.
    lemma_seq_lt_split(u, c, 4);
    assert(u.take(4) =~= u.subrange(0, 4));
    assert(c.take(4) =~= c.subrange(0, 4));
    let u4 = u.skip(4);
    let c4 = c.skip(4);
    assert(u4[0] == '-' && c4[0] == '-');
    assert(u4.drop_first() =~= u.skip(5));
    assert(c4.drop_first() =~= c.skip(5));
    assert(seq_lt(u4, c4) == seq_lt(u.skip(5), c.skip(5)));
    // Month, then the rest.
    let u5 = u.skip(5);
    let c5 = c.skip(5);
    lemma_seq_lt_split(u5, c5, 2);
    assert(u5.take(2) =~= u.subrange(5, 7));
    assert(c5.take(2) =~= c.subrange(5, 7));
    let u7 = u5.skip(2);
    let c7 = c5.skip(2);
    assert(u7[0] == '-' && c7[0] == '-');
    assert(u7.drop_first() =~= u.subrange(8, 10));
    assert(c7.drop_first() =~= c.subrange(8, 10));
    assert(seq_lt(u7, c7) == seq_lt(u.subrange(8, 10), c.subrange(8, 10)));
}

} // verus!
