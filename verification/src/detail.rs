//! The detail extractor: values read out of one series detail page become
//! the full series record — a recovered multi-author list, normalized
//! description, cleaned category list, and the site-wide constant fields.

use vstd::prelude::*;

use crate::records::Manga;
use crate::records::MangaContentRating;
use crate::records::MangaStatus;
use crate::records::MangaView;
use crate::records::MangaViewer;
use crate::strings::chars_to_string;
use crate::strings::str_chars;
use crate::strings::string_chars;
use crate::text::join_chars;
use crate::text::join_with;
use crate::text::replace_all;
use crate::text::replace_chars;
use crate::text::split_chars;
use crate::text::split_on;
use crate::text::trim;
use crate::text::trim_chars;
use crate::urls::manga_url;
use crate::urls::manga_url_view;

verus! {

/// The values read out of a series detail page: the collection widget's
/// `data-id`, the cover image's `src`, the title text, the raw author and
/// intro texts, and the category nodes' texts in document order.
#[derive(Debug)]
pub struct DetailSource {
    pub collect_id: String,
    pub cover: String,
    pub title: String,
    pub author_text: String,
    pub intro_text: String,
    pub category_texts: Vec<String>,
}

/// The pieces trimmed, with blank ones dropped, order kept.
pub open spec fn clean_pieces(ps: Seq<Seq<char>>) -> Seq<Seq<char>>
    decreases ps.len(),
{
    if ps.len() == 0 {
        Seq::empty()
    } else {
        let rest = clean_pieces(ps.drop_last());
        if trim(ps.last()).len() > 0 {
            rest + seq![trim(ps.last())]
        } else {
            rest
        }
    }
}

/// The author list recovered from the site's ampersand-separated, badly
/// entity-encoded rendering: mend `&amp` to `&`, split on `&`, trim each
/// piece, drop blank ones, and rejoin with ", ".
pub open spec fn author_from(s: Seq<char>) -> Seq<char> {
    join_with(clean_pieces(split_on(replace_all(s, "&amp"@, "&"@), '&')), ", "@)
}

/// The description: trimmed, with the site's unterminated `&hellip`
/// replaced by an ellipsis.
pub open spec fn description_from(s: Seq<char>) -> Seq<char> {
    replace_all(trim(s), "&hellip"@, "…"@)
}

/// The category texts trimmed, with blank ones dropped, order kept.
pub open spec fn categories_from(cs: Seq<String>) -> Seq<Seq<char>>
    decreases cs.len(),
{
    if cs.len() == 0 {
        Seq::empty()
    } else {
        let rest = categories_from(cs.drop_last());
        if trim(cs.last()@).len() > 0 {
            rest + seq![trim(cs.last()@)]
        } else {
            rest
        }
    }
}

/// The full series record a detail page yields. Status, content rating and
/// reading direction are constants: the site's markup carries no per-series
/// signal for them, so every series is reported ongoing, not-safe-for-work
/// and scroll-read by design.
pub open spec fn detail_record(id: Seq<char>, src: DetailSource) -> MangaView {
    MangaView {
        id: src.collect_id@,
        cover: src.cover@,
        title: src.title@,
        author: author_from(src.author_text@),
        artist: Seq::empty(),
        description: description_from(src.intro_text@),
        url: manga_url_view(id),
        categories: categories_from(src.category_texts@),
        status: MangaStatus::Ongoing,
        nsfw: MangaContentRating::Nsfw,
        viewer: MangaViewer::Scroll,
    }
}

fn author_string(author_text: &String) -> (r: String)
    ensures
        r@ == author_from(author_text@),
{
    let chars = string_chars(author_text);
    let replaced = replace_chars(&chars, &str_chars("&amp"), &str_chars("&"));
    let pieces = split_chars(&replaced, '&');
    let ghost view = pieces@.map_values(|p: Vec<char>| p@);
    let mut cleaned: Vec<Vec<char>> = Vec::new();
    let mut k: usize = 0;
    proof {
        assert(cleaned@.map_values(|p: Vec<char>| p@) =~= clean_pieces(view.take(0)));
    }
    while k < pieces.len()
        invariant
            k <= pieces@.len(),
            view == pieces@.map_values(|p: Vec<char>| p@),
            cleaned@.map_values(|p: Vec<char>| p@) == clean_pieces(view.take(k as int)),
        decreases pieces@.len() - k,
    {
        proof {
            assert(view.take(k + 1 as int).drop_last() =~= view.take(k as int));
            assert(view.take(k + 1 as int).last() == view[k as int]);
        }
        let ghost pre = cleaned@.map_values(|p: Vec<char>| p@);
        let t = trim_chars(&pieces[k]);
        if t.len() > 0 {
            cleaned.push(t);
            proof {
                assert(cleaned@.map_values(|p: Vec<char>| p@) =~= pre + seq![
                    trim(view[k as int]),
                ]);
            }
        }
        k = k + 1;
    }
    proof {
        assert(view.take(view.len() as int) =~= view);
    }
    let joined = join_chars(&cleaned, &str_chars(", "));
    chars_to_string(&joined)
}

fn description_string(intro_text: &String) -> (r: String)
    ensures
        r@ == description_from(intro_text@),
{
    let chars = string_chars(intro_text);
    let t = trim_chars(&chars);
    let replaced = replace_chars(&t, &str_chars("&hellip"), &str_chars("…"));
    chars_to_string(&replaced)
}

fn categories_vec(cs: &Vec<String>) -> (r: Vec<String>)
    ensures
        r@.map_values(|c: String| c@) == categories_from(cs@),
{
    let mut out: Vec<String> = Vec::new();
    let mut k: usize = 0;
    proof {
        assert(out@.map_values(|c: String| c@) =~= categories_from(cs@.take(0)));
    }
    while k < cs.len()
        invariant
            k <= cs@.len(),
            out@.map_values(|c: String| c@) == categories_from(cs@.take(k as int)),
        decreases cs@.len() - k,
    {
        proof {
            assert(cs@.take(k + 1 as int).drop_last() =~= cs@.take(k as int));
            assert(cs@.take(k + 1 as int).last() == cs@[k as int]);
        }
        let ghost pre = out@.map_values(|c: String| c@);
        let chars = string_chars(&cs[k]);
        let t = trim_chars(&chars);
        if t.len() > 0 {
            out.push(chars_to_string(&t));
            proof {
                assert(out@.map_values(|c: String| c@) =~= pre + seq![trim(cs@[k as int]@)]);
            }
        }
        k = k + 1;
    }
    proof {
        assert(cs@.take(cs@.len() as int) =~= cs@);
    }
    out
}

/// Extracts the full series record from a detail page's values; `id` is
/// the identifier the page was requested under, which names the record's
/// canonical URL, while the record's own id comes from the collection
/// widget's `data-id`.
pub fn extract_manga_details(id: &str, src: &DetailSource) -> (r: Manga)
    ensures
        r@ == detail_record(id@, *src),
{
    Manga {
        id: src.collect_id.clone(),
        cover: src.cover.clone(),
        title: src.title.clone(),
        author: author_string(&src.author_text),
        artist: String::new(),
        description: description_string(&src.intro_text),
        url: manga_url(id),
        categories: categories_vec(&src.category_texts),
        status: MangaStatus::Ongoing,
        nsfw: MangaContentRating::Nsfw,
        viewer: MangaViewer::Scroll,
    }
}

} // verus!
