use zh_se8::chapters::extract_chapter_list;
use zh_se8::chapters::ChapterEntry;
use zh_se8::records::SourceError;

fn entry(id: &str, name: &str, link: &str) -> ChapterEntry {
    ChapterEntry::Entry {
        id: Some(String::from(id)),
        name: Some(String::from(name)),
        link: Some(String::from(link)),
    }
}

#[test]
fn latest_first_input_comes_back_earliest_first() {
    let entries = vec![entry("9", "Ch 2", "/c/9"), entry("5", "Ch 1", "/c/5")];
    let chapters = extract_chapter_list(&entries).unwrap();
    assert_eq!(chapters.len(), 2);
    assert_eq!(chapters[0].id, "5");
    assert_eq!(chapters[0].title, "Ch 1");
    assert_eq!(chapters[0].url, "/c/5");
    assert_eq!(chapters[1].id, "9");
    assert_eq!(chapters[1].title, "Ch 2");
    assert_eq!(chapters[1].url, "/c/9");
    // Sequence numbers come from the 1-based pre-reversal positions, so
    // after the reversal output position k carries N - k.
    assert_eq!(chapters[0].sequence_number, 2);
    assert_eq!(chapters[1].sequence_number, 1);
}

#[test]
fn sequence_numbers_reverse_positions() {
    let entries = vec![
        entry("d", "D", "/d"),
        entry("c", "C", "/c"),
        entry("b", "B", "/b"),
        entry("a", "A", "/a"),
    ];
    let chapters = extract_chapter_list(&entries).unwrap();
    let n = entries.len();
    assert_eq!(chapters.len(), n);
    for (k, c) in chapters.iter().enumerate() {
        assert_eq!(c.sequence_number, n - k);
    }
    assert_eq!(chapters[0].id, "a");
    assert_eq!(chapters[3].id, "d");
}

#[test]
fn numeric_entities_decode() {
    let entries = vec![entry("1", "A &#40;B&#41;", "/c/1")];
    let chapters = extract_chapter_list(&entries).unwrap();
    assert_eq!(chapters[0].title, "A (B)");
}

#[test]
fn all_entity_literals_decode() {
    let entries = vec![entry(
        "1",
        "&lt;x&gt; &#40;y&#41; &ldquo;z&rdquo; w&hellip; &hearts;",
        "/c/1",
    )];
    let chapters = extract_chapter_list(&entries).unwrap();
    assert_eq!(chapters[0].title, "<x> (y) “z” w… ♥");
}

#[test]
fn decoding_is_idempotent_on_decoded_text() {
    let once = {
        let entries = vec![entry("1", "<x> (y) “z” w… ♥", "/c/1")];
        extract_chapter_list(&entries).unwrap()[0].title.clone()
    };
    let twice = {
        let entries = vec![entry("1", &once, "/c/1")];
        extract_chapter_list(&entries).unwrap()[0].title.clone()
    };
    assert_eq!(once, "<x> (y) “z” w… ♥");
    assert_eq!(twice, once);
}

#[test]
fn titles_are_trimmed() {
    let entries = vec![entry("1", "  Ch 1  ", "/c/1")];
    let chapters = extract_chapter_list(&entries).unwrap();
    assert_eq!(chapters[0].title, "Ch 1");
}

#[test]
fn malformed_entry_is_skipped_but_keeps_its_position() {
    let entries = vec![ChapterEntry::Malformed, entry("5", "Ch 1", "/c/5")];
    let chapters = extract_chapter_list(&entries).unwrap();
    assert_eq!(chapters.len(), 1);
    assert_eq!(chapters[0].id, "5");
    assert_eq!(chapters[0].sequence_number, 2);
}

#[test]
fn missing_field_is_fatal() {
    let entries = vec![ChapterEntry::Entry {
        id: Some(String::from("5")),
        name: None,
        link: Some(String::from("/c/5")),
    }];
    let r = extract_chapter_list(&entries);
    assert_eq!(r.unwrap_err(), SourceError::MissingChapterField);
}

#[test]
fn empty_input_gives_empty_list() {
    let entries: Vec<ChapterEntry> = vec![];
    let chapters = extract_chapter_list(&entries).unwrap();
    assert!(chapters.is_empty());
}
