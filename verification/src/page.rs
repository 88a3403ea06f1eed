//! What the page shows of the index and of each article.
use vstd::prelude::*;

use crate::model::{Article, ArticleView};
use crate::text::{
    chars_of, decimal, extend_chars, extend_str, join, lemma_join_holds_parts, occurs_in, push_decimal,
    string_of, views,
};

verus! {

/// A date with its hyphens written as dots (`2026-08-14` → `2026.08.14`).
pub open spec fn dotted_date(date: Seq<char>) -> Seq<char> {
    date.map_values(|c: char| if c == '-' { '.' } else { c })
}

/// A date with its hyphens written as dots.
pub fn format_date(date: &str) -> (r: String)
    ensures
        r@ == dotted_date(date@),
{
    let cs = chars_of(date);
    let mut out: Vec<char> = Vec::new();
    let mut i: usize = 0;
    while i < cs.len()
        invariant
            i <= cs.len(),
            cs@ == date@,
            out@ == dotted_date(date@).take(i as int),
        decreases cs.len() - i,
    {
        let c = cs[i];
        out.push(if c == '-' { '.' } else { c });
        i = i + 1;
        assert(out@ =~= dotted_date(date@).take(i as int));
    }
    assert(dotted_date(date@).take(cs.len() as int) =~= dotted_date(date@));
    string_of(&out)
}

/// The texts of an article card and of its summary dialog.
pub struct ArticleCard {
    /// The fragment that opens the dialog (`article-<id>`).
    pub modal_id: String,
    /// The id of the dialog's heading.
    pub title_id: String,
    /// The accessible label of the card link.
    pub aria_label: String,
    /// The title on the card's picture: the Open Graph title, else the title.
    pub display_title: String,
    /// Up to three technologies, separated by a wide slash.
    pub technology_line: String,
    /// The first summary paragraph, or nothing.
    pub lead: String,
    /// The reading time.
    pub reading_label: String,
    /// The creation date.
    pub created_label: String,
    /// The update date.
    pub updated_label: String,
}

/// The value of an [`ArticleCard`].
pub struct CardView {
    pub modal_id: Seq<char>,
    pub title_id: Seq<char>,
    pub aria_label: Seq<char>,
    pub display_title: Seq<char>,
    pub technology_line: Seq<char>,
    pub lead: Seq<char>,
    pub reading_label: Seq<char>,
    pub created_label: Seq<char>,
    pub updated_label: Seq<char>,
}

impl View for ArticleCard {
    type V = CardView;

    open spec fn view(&self) -> CardView {
        CardView {
            modal_id: self.modal_id@,
            title_id: self.title_id@,
            aria_label: self.aria_label@,
            display_title: self.display_title@,
            technology_line: self.technology_line@,
            lead: self.lead@,
            reading_label: self.reading_label@,
            created_label: self.created_label@,
            updated_label: self.updated_label@,
        }
    }
}

/// The card texts of an article.
pub open spec fn card_of(a: ArticleView) -> CardView {
    let modal_id = "article-"@ + a.id;
    CardView {
        modal_id,
        title_id: modal_id + "-title"@,
        aria_label: a.title + "の要約を開く"@,
        display_title: match a.ogp {
            Some(o) => match o.title {
                Some(t) => t,
                None => a.title,
            },
            None => a.title,
        },
        technology_line: join(
            if a.technologies.len() <= 3 {
                a.technologies
            } else {
                a.technologies.take(3)
            },
            "　/　"@,
        ),
        lead: if a.summary.len() > 0 {
            a.summary[0]
        } else {
            Seq::empty()
        },
        reading_label: "読了 "@ + decimal(a.reading_minutes as nat) + "分"@,
        created_label: "作成 "@ + dotted_date(a.created_at),
        updated_label: "更新 "@ + dotted_date(a.updated_at),
    }
}

/// The card texts of an article.
pub fn article_card(article: &Article) -> (c: ArticleCard)
    ensures
        c@ == card_of(article@),
{
    let mut modal_id: Vec<char> = Vec::new();
    extend_str(&mut modal_id, "article-");
    extend_str(&mut modal_id, article.id.as_str());
    let mut title_id: Vec<char> = Vec::new();
    extend_chars(&mut title_id, &modal_id);
    extend_str(&mut title_id, "-title");
    let mut aria_label: Vec<char> = Vec::new();
    extend_str(&mut aria_label, article.title.as_str());
    extend_str(&mut aria_label, "の要約を開く");
    let mut display_title: Vec<char> = Vec::new();
    match &article.ogp {
        Some(o) => match &o.title {
            Some(t) => extend_str(&mut display_title, t.as_str()),
            None => extend_str(&mut display_title, article.title.as_str()),
        },
        None => extend_str(&mut display_title, article.title.as_str()),
    }
    let mut first: Vec<String> = Vec::new();
    let mut k: usize = 0;
    while k < 3 && k < article.technologies.len()
        invariant
            k <= 3,
            k <= article.technologies.len(),
            first@ == article.technologies@.take(k as int),
        decreases 3 - k,
    {
        first.push(article.technologies[k].clone());
        k = k + 1;
        assert(first@ =~= article.technologies@.take(k as int));
    }
    let mut technology_line: Vec<char> = Vec::new();
    crate::text::push_joined(&mut technology_line, &first, "　/　");
    proof {
        let tv = views(article.technologies@);
        if tv.len() <= 3 {
            assert(article.technologies@.take(k as int) =~= article.technologies@);
        } else {
            assert(views(first@) =~= tv.take(3));
        }
    }
    let mut lead: Vec<char> = Vec::new();
    if article.summary.len() > 0 {
        extend_str(&mut lead, article.summary[0].as_str());
    }
    let mut reading_label: Vec<char> = Vec::new();
    extend_str(&mut reading_label, "読了 ");
    push_decimal(&mut reading_label, article.reading_minutes as u64);
    extend_str(&mut reading_label, "分");
    let mut created_label: Vec<char> = Vec::new();
    extend_str(&mut created_label, "作成 ");
    extend_str(&mut created_label, format_date(article.created_at.as_str()).as_str());
    let mut updated_label: Vec<char> = Vec::new();
    extend_str(&mut updated_label, "更新 ");
    extend_str(&mut updated_label, format_date(article.updated_at.as_str()).as_str());
    ArticleCard {
        modal_id: string_of(&modal_id),
        title_id: string_of(&title_id),
        aria_label: string_of(&aria_label),
        display_title: string_of(&display_title),
        technology_line: string_of(&technology_line),
        lead: string_of(&lead),
        reading_label: string_of(&reading_label),
        created_label: string_of(&created_label),
        updated_label: string_of(&updated_label),
    }
}

/// Writing a date with dots keeps its length, turns each hyphen into a
/// dot, keeps every other character where it was, and leaves no hyphen.
pub proof fn lemma_dotted_date(date: Seq<char>)
    ensures
        dotted_date(date).len() == date.len(),
        forall|i: int|
            0 <= i < date.len() ==> (#[trigger] dotted_date(date)[i] == '.' <==> (date[i] == '-'
                || date[i] == '.')),
        forall|i: int|
            0 <= i < date.len() && date[i] != '-' ==> #[trigger] dotted_date(date)[i] == date[i],
        forall|i: int| 0 <= i < date.len() ==> #[trigger] dotted_date(date)[i] != '-',
{
}

/// What a card shows of its article: the Open Graph title when the
/// article's metadata has one and the article's own title otherwise; the
/// first summary paragraph as the lead, or nothing when there is none; a
/// dialog id made from the article id, with the heading id after it; and
/// a technology line that holds each of the first three technologies and
/// does not depend on any after them.
pub proof fn lemma_card_texts(a: ArticleView)
    ensures
        a.ogp matches Some(o) ==> (o.title matches Some(t) ==> card_of(a).display_title == t),
        !(a.ogp is Some && a.ogp.unwrap().title is Some) ==> card_of(a).display_title == a.title,
        a.summary.len() > 0 ==> card_of(a).lead == a.summary[0],
        a.summary.len() == 0 ==> card_of(a).lead.len() == 0,
        card_of(a).modal_id == "article-"@ + a.id,
        card_of(a).title_id == card_of(a).modal_id + "-title"@,
        card_of(a).aria_label == a.title + "の要約を開く"@,
        forall|i: int|
            0 <= i < a.technologies.len() && i < 3 ==> occurs_in(
                card_of(a).technology_line,
                #[trigger] a.technologies[i],
            ),
        a.technologies.len() == 0 ==> card_of(a).technology_line.len() == 0,
        a.technologies.len() == 1 ==> card_of(a).technology_line == a.technologies[0],
        a.technologies.len() >= 3 ==> card_of(a).technology_line == card_of(
            ArticleView { technologies: a.technologies.take(3), ..a },
        ).technology_line,
{
    let shown = if a.technologies.len() <= 3 {
        a.technologies
    } else {
        a.technologies.take(3)
    };
    assert forall|i: int|
        0 <= i < a.technologies.len() && i < 3 implies occurs_in(
            card_of(a).technology_line,
            #[trigger] a.technologies[i],
        ) by {
        assert(shown[i] == a.technologies[i]);
        lemma_join_holds_parts(shown, "　/　"@, i);
    }
    if a.technologies.len() >= 3 {
        let b = ArticleView { technologies: a.technologies.take(3), ..a };
        assert(b.technologies.take(3) =~= b.technologies);
        assert(a.technologies.len() == 3 ==> a.technologies =~= a.technologies.take(3));
    }
}

/// The notice under the result count: that there is no article yet, or
/// that none meets the conditions.
pub open spec fn result_notice_of(total: nat, matched: nat) -> Option<Seq<char>> {
    if total == 0 {
        Some("記事がまだありません。"@)
    } else if matched == 0 {
        Some("条件に合う記事がありません。"@)
    } else {
        None
    }
}

pub fn result_notice(total: usize, matched: usize) -> (r: Option<&'static str>)
    ensures
        match r {
            Some(m) => result_notice_of(total as nat, matched as nat) == Some(m@),
            None => result_notice_of(total as nat, matched as nat) is None,
        },
{
    if total == 0 {
        Some("記事がまだありません。")
    } else if matched == 0 {
        Some("条件に合う記事がありません。")
    } else {
        None
    }
}

/// The result count: matches out of all articles.
pub fn result_count_label(matched: usize, total: usize) -> (r: String)
    ensures
        r@ == decimal(matched as nat) + " / "@ + decimal(total as nat) + "件"@,
{
    let mut out: Vec<char> = Vec::new();
    push_decimal(&mut out, matched as u64);
    extend_str(&mut out, " / ");
    push_decimal(&mut out, total as u64);
    extend_str(&mut out, "件");
    string_of(&out)
}

/// The number of articles in the archive, as the header shows it.
pub fn archive_count_label(total: usize) -> (r: String)
    ensures
        r@ == "収録 "@ + decimal(total as nat) + "件"@,
{
    let mut out: Vec<char> = Vec::new();
    extend_str(&mut out, "収録 ");
    push_decimal(&mut out, total as u64);
    extend_str(&mut out, "件");
    string_of(&out)
}

/// A number of articles, as the sidebar shows it.
pub fn count_label(total: usize) -> (r: String)
    ensures
        r@ == decimal(total as nat) + "件"@,
{
    let mut out: Vec<char> = Vec::new();
    push_decimal(&mut out, total as u64);
    extend_str(&mut out, "件");
    string_of(&out)
}

} // verus!
