use zh_se8::filters::compile_filters;
use zh_se8::filters::Filter;
use zh_se8::filters::QueryDescriptor;
use zh_se8::urls::chapter_api_url;
use zh_se8::urls::listing_url;
use zh_se8::urls::manga_url;
use zh_se8::urls::reader_url;

fn query(free_text: &str, tag: &str, status: &str, sort: &str) -> QueryDescriptor {
    QueryDescriptor {
        free_text: String::from(free_text),
        tag_code: String::from(tag),
        status_code: String::from(status),
        sort_key: String::from(sort),
    }
}

#[test]
fn tag_filter_gives_category_listing_url() {
    let filters = vec![Filter::Select { name: String::from("标签"), index: 3 }];
    let q = compile_filters(&filters).unwrap();
    assert_eq!(q.tag_code, "62");
    let url = listing_url(&q, 1);
    assert_eq!(url, "https://se8.us/index.php/category/tags/62/order/hits/page/1");
}

#[test]
fn search_url_shape() {
    let q = query("abc", "62", "1", "hits");
    let url = listing_url(&q, 2);
    assert_eq!(url, "https://se8.us/index.php/search/abc/2");
}

#[test]
fn nonempty_text_never_category() {
    let q = query("abc def", "62", "1", "addtime");
    let url = listing_url(&q, 1);
    assert!(!url.contains("/category"));
    assert!(url.starts_with("https://se8.us/index.php/search/"));
}

#[test]
fn empty_text_never_search() {
    let q = query("", "62", "1", "addtime");
    let url = listing_url(&q, 1);
    assert!(!url.contains("/search/"));
    assert!(url.starts_with("https://se8.us/index.php/category"));
}

#[test]
fn segments_in_fixed_order() {
    let q = query("", "62", "1", "addtime");
    assert_eq!(
        listing_url(&q, 5),
        "https://se8.us/index.php/category/tags/62/finish/1/order/addtime/page/5"
    );
}

#[test]
fn empty_tag_drops_its_segment() {
    let q = query("", "", "2", "hits");
    assert_eq!(
        listing_url(&q, 1),
        "https://se8.us/index.php/category/finish/2/order/hits/page/1"
    );
}

#[test]
fn empty_status_drops_its_segment() {
    let q = query("", "64", "", "hits");
    assert_eq!(listing_url(&q, 3), "https://se8.us/index.php/category/tags/64/order/hits/page/3");
}

#[test]
fn empty_codes_drop_both_segments() {
    let q = query("", "", "", "hits");
    assert_eq!(listing_url(&q, 1), "https://se8.us/index.php/category/order/hits/page/1");
}

#[test]
fn search_term_is_percent_encoded() {
    let q = query("标签", "", "", "hits");
    assert_eq!(listing_url(&q, 1), "https://se8.us/index.php/search/%E6%A0%87%E7%AD%BE/1");
}

#[test]
fn space_and_percent_are_encoded() {
    let q = query("a b%", "", "", "hits");
    assert_eq!(listing_url(&q, 1), "https://se8.us/index.php/search/a%20b%25/1");
}

#[test]
fn kept_characters_pass_through() {
    let q = query("a-b_c.d!e~f*g'h(i)j;k:l@m&n=o+p$q,r/s?t#u", "", "", "hits");
    assert_eq!(
        listing_url(&q, 1),
        "https://se8.us/index.php/search/a-b_c.d!e~f*g'h(i)j;k:l@m&n=o+p$q,r/s?t#u/1"
    );
}

#[test]
fn manga_url_shape() {
    assert_eq!(manga_url("123"), "https://se8.us/index.php/comic/123");
}

#[test]
fn chapter_api_url_shape() {
    assert_eq!(chapter_api_url("123"), "https://se8.us/index.php/api/comic/chapter?mid=123");
}

#[test]
fn reader_url_shape() {
    assert_eq!(reader_url("456"), "https://se8.us/index.php/chapter/456");
}
