//! The URL builder: the two listing URL shapes (browse-by-category and
//! free-text search) and the per-resource URLs.

use vstd::prelude::*;

use crate::encode::encode_uri;
use crate::encode::encode_uri_chars;
use crate::filters::QueryDescriptor;
use crate::filters::QueryView;
use crate::numbers::i32_to_chars;
use crate::numbers::int_str;
use crate::strings::chars_to_string;
use crate::strings::string_chars;

verus! {

/// The site's base URL, in front of every path this builder makes.
pub open spec fn base_url() -> Seq<char> {
    "https://se8.us/index.php"@
}

fn base() -> (r: &'static str)
    ensures
        r@ == base_url(),
{
    "https://se8.us/index.php"
}

/// The free-text search URL: the percent-encoded term, then the page.
pub open spec fn search_url(term: Seq<char>, page: int) -> Seq<char> {
    base_url() + "/search/"@ + encode_uri(term) + "/"@ + int_str(page)
}

/// The browse-by-category URL: the tag and completion-status segments
/// appear only when their codes are non-empty, always in the order tag,
/// then finish, then order, then page.
pub open spec fn category_url(tag: Seq<char>, status: Seq<char>, sort: Seq<char>, page: int) -> Seq<
    char,
> {
    base_url() + "/category"@ + (if tag.len() > 0 {
        "/tags/"@ + tag
    } else {
        Seq::empty()
    }) + (if status.len() > 0 {
        "/finish/"@ + status
    } else {
        Seq::empty()
    }) + "/order/"@ + sort + "/page/"@ + int_str(page)
}

/// The listing URL a query compiles to: a search when free text is
/// present (the search endpoint does not facet), a category browse
/// otherwise.
pub open spec fn listing_url_view(q: QueryView, page: int) -> Seq<char> {
    if q.free_text.len() > 0 {
        search_url(q.free_text, page)
    } else {
        category_url(q.tag_code, q.status_code, q.sort_key, page)
    }
}

/// The series detail page URL.
pub open spec fn manga_url_view(id: Seq<char>) -> Seq<char> {
    base_url() + "/comic/"@ + id
}

/// The chapter-list JSON API URL for a series.
pub open spec fn chapter_api_url_view(id: Seq<char>) -> Seq<char> {
    base_url() + "/api/comic/chapter?mid="@ + id
}

/// The chapter reader page URL.
pub open spec fn reader_url_view(chapter_id: Seq<char>) -> Seq<char> {
    base_url() + "/chapter/"@ + chapter_id
}

fn append_page(url: &mut String, page: i32)
    ensures
        final(url)@ == old(url)@ + int_str(page as int),
{
    let digits = i32_to_chars(page);
    let s = chars_to_string(&digits);
    url.append(s.as_str());
}

/// Builds the listing URL for a compiled query and a page number.
pub fn listing_url(q: &QueryDescriptor, page: i32) -> (r: String)
    ensures
        r@ == listing_url_view(q@, page as int),
{
    let mut url = String::from_str(base());
    if !q.free_text.as_str().is_empty() {
        url.append("/search/");
        let term = string_chars(&q.free_text);
        let enc = encode_uri_chars(&term);
        let enc_s = chars_to_string(&enc);
        url.append(enc_s.as_str());
        url.append("/");
        append_page(&mut url, page);
        proof {
            assert(url@ =~= search_url(q.free_text@, page as int));
        }
    } else {
        url.append("/category");
        if !q.tag_code.as_str().is_empty() {
            url.append("/tags/");
            url.append(q.tag_code.as_str());
        }
        if !q.status_code.as_str().is_empty() {
            url.append("/finish/");
            url.append(q.status_code.as_str());
        }
        url.append("/order/");
        url.append(q.sort_key.as_str());
        url.append("/page/");
        append_page(&mut url, page);
        proof {
            assert(url@ =~= category_url(
                q.tag_code@,
                q.status_code@,
                q.sort_key@,
                page as int,
            ));
        }
    }
    url
}

/// Builds the series detail page URL.
pub fn manga_url(id: &str) -> (r: String)
    ensures
        r@ == manga_url_view(id@),
{
    let mut url = String::from_str(base());
    url.append("/comic/");
    url.append(id);
    proof {
        assert(url@ =~= manga_url_view(id@));
    }
    url
}

/// Builds the chapter-list JSON API URL for a series.
pub fn chapter_api_url(id: &str) -> (r: String)
    ensures
        r@ == chapter_api_url_view(id@),
{
    let mut url = String::from_str(base());
    url.append("/api/comic/chapter?mid=");
    url.append(id);
    proof {
        assert(url@ =~= chapter_api_url_view(id@));
    }
    url
}

/// Builds the chapter reader page URL.
pub fn reader_url(chapter_id: &str) -> (r: String)
    ensures
        r@ == reader_url_view(chapter_id@),
{
    let mut url = String::from_str(base());
    url.append("/chapter/");
    url.append(chapter_id);
    proof {
        assert(url@ =~= reader_url_view(chapter_id@));
    }
    url
}

/// With free text present the listing URL is the search shape: the base,
/// then the search segment, the encoded term and the page, and no part of
/// the category shape is appended.
pub proof fn lemma_listing_url_with_text(q: QueryView, page: int)
    requires
        q.free_text.len() > 0,
    ensures
        listing_url_view(q, page) == search_url(q.free_text, page),
        listing_url_view(q, page).subrange(base_url().len() as int, base_url().len() as int + 8)
            == "/search/"@,
{
    assert(listing_url_view(q, page).subrange(base_url().len() as int, base_url().len() as int + 8)
        =~= "/search/"@) by {
        reveal_strlit("/search/");
    }
}

/// With empty free text the listing URL is the category shape: right after
/// the base comes the category segment, never the search one.
pub proof fn lemma_listing_url_without_text(q: QueryView, page: int)
    requires
        q.free_text.len() == 0,
    ensures
        listing_url_view(q, page) == category_url(q.tag_code, q.status_code, q.sort_key, page),
        listing_url_view(q, page).subrange(base_url().len() as int, base_url().len() as int + 9)
            == "/category"@,
{
    assert(listing_url_view(q, page).subrange(base_url().len() as int, base_url().len() as int + 9)
        =~= "/category"@) by {
        reveal_strlit("/category");
    }
}

/// The category URL's optional segments appear exactly when their codes
/// are non-empty, and always in the order tag, then finish, then order,
/// then page.
pub proof fn lemma_category_url_segment_order(
    tag: Seq<char>,
    status: Seq<char>,
    sort: Seq<char>,
    page: int,
)
    ensures
        tag.len() > 0 && status.len() > 0 ==> category_url(tag, status, sort, page) == base_url()
            + "/category"@ + "/tags/"@ + tag + "/finish/"@ + status + "/order/"@ + sort + "/page/"@
            + int_str(page),
        tag.len() > 0 && status.len() == 0 ==> category_url(tag, status, sort, page) == base_url()
            + "/category"@ + "/tags/"@ + tag + "/order/"@ + sort + "/page/"@ + int_str(page),
        tag.len() == 0 && status.len() > 0 ==> category_url(tag, status, sort, page) == base_url()
            + "/category"@ + "/finish/"@ + status + "/order/"@ + sort + "/page/"@ + int_str(page),
        tag.len() == 0 && status.len() == 0 ==> category_url(tag, status, sort, page) == base_url()
            + "/category"@ + "/order/"@ + sort + "/page/"@ + int_str(page),
{
    if tag.len() > 0 && status.len() > 0 {
        assert(category_url(tag, status, sort, page) =~= base_url() + "/category"@ + "/tags/"@
            + tag + "/finish/"@ + status + "/order/"@ + sort + "/page/"@ + int_str(page));
    } else if tag.len() > 0 {
        assert(category_url(tag, status, sort, page) =~= base_url() + "/category"@ + "/tags/"@
            + tag + "/order/"@ + sort + "/page/"@ + int_str(page));
    } else if status.len() > 0 {
        assert(category_url(tag, status, sort, page) =~= base_url() + "/category"@ + "/finish/"@
            + status + "/order/"@ + sort + "/page/"@ + int_str(page));
    } else {
        assert(category_url(tag, status, sort, page) =~= base_url() + "/category"@ + "/order/"@
            + sort + "/page/"@ + int_str(page));
    }
}

} // verus!
