use zh_se8::pages::extract_page_list;

#[test]
fn pages_keep_document_order_and_position() {
    let items = vec![
        Some(String::from("https://img/1.jpg")),
        Some(String::from("https://img/2.jpg")),
    ];
    let pages = extract_page_list(&items);
    assert_eq!(pages.len(), 2);
    assert_eq!(pages[0].index, 0);
    assert_eq!(pages[0].image_url, "https://img/1.jpg");
    assert_eq!(pages[1].index, 1);
    assert_eq!(pages[1].image_url, "https://img/2.jpg");
}

#[test]
fn image_urls_are_trimmed() {
    let items = vec![Some(String::from("  https://img/1.jpg\n"))];
    let pages = extract_page_list(&items);
    assert_eq!(pages[0].image_url, "https://img/1.jpg");
}

#[test]
fn unresolvable_nodes_are_skipped_but_keep_positions() {
    let items = vec![
        Some(String::from("a")),
        None,
        Some(String::from(" b ")),
        None,
    ];
    let pages = extract_page_list(&items);
    assert_eq!(pages.len(), 2);
    assert_eq!(pages[0].index, 0);
    assert_eq!(pages[0].image_url, "a");
    assert_eq!(pages[1].index, 2);
    assert_eq!(pages[1].image_url, "b");
}

#[test]
fn empty_reader_page_gives_no_pages() {
    let items: Vec<Option<String>> = vec![];
    assert!(extract_page_list(&items).is_empty());
}
