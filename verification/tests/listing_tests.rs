use zh_se8::listing::extract_manga_list;
use zh_se8::listing::ListingItem;

fn item(href: &str, cover: &str, title: &str) -> Option<ListingItem> {
    Some(ListingItem {
        href: String::from(href),
        cover: String::from(cover),
        title: String::from(title),
    })
}

#[test]
fn id_is_last_path_segment() {
    let items = vec![item("https://se8.us/index.php/comic/123", "c.jpg", "T")];
    let r = extract_manga_list(&items);
    assert_eq!(r.manga.len(), 1);
    assert_eq!(r.manga[0].id, "123");
    assert_eq!(r.manga[0].cover, "c.jpg");
    assert_eq!(r.manga[0].title, "T");
}

#[test]
fn href_without_slash_is_whole_id() {
    let items = vec![item("789", "c", "T")];
    let r = extract_manga_list(&items);
    assert_eq!(r.manga[0].id, "789");
}

#[test]
fn trailing_slash_gives_empty_id() {
    let items = vec![item("https://se8.us/comic/123/", "c", "T")];
    let r = extract_manga_list(&items);
    assert_eq!(r.manga[0].id, "");
}

#[test]
fn malformed_nodes_are_skipped() {
    let items = vec![
        None,
        item("/comic/1", "c1", "T1"),
        None,
        None,
        item("/comic/2", "c2", "T2"),
        None,
    ];
    let r = extract_manga_list(&items);
    assert_eq!(r.manga.len(), 2);
    assert_eq!(r.manga[0].id, "1");
    assert_eq!(r.manga[1].id, "2");
}

#[test]
fn has_more_is_always_reported() {
    let empty: Vec<Option<ListingItem>> = vec![];
    assert!(extract_manga_list(&empty).has_more);
    let one = vec![item("/comic/1", "c", "T")];
    assert!(extract_manga_list(&one).has_more);
}

#[test]
fn document_order_is_kept() {
    let items = vec![
        item("/comic/b", "c", "B"),
        item("/comic/a", "c", "A"),
        item("/comic/c", "c", "C"),
    ];
    let r = extract_manga_list(&items);
    let ids: Vec<&str> = r.manga.iter().map(|m| m.id.as_str()).collect();
    assert_eq!(ids, vec!["b", "a", "c"]);
}
