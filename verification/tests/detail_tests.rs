use zh_se8::detail::extract_manga_details;
use zh_se8::detail::DetailSource;
use zh_se8::records::MangaContentRating;
use zh_se8::records::MangaStatus;
use zh_se8::records::MangaViewer;

fn source() -> DetailSource {
    DetailSource {
        collect_id: String::from("321"),
        cover: String::from("https://img/cover.jpg"),
        title: String::from("某漫画"),
        author_text: String::from("张三&amp李四"),
        intro_text: String::from("  一段介绍&hellip  "),
        category_texts: vec![
            String::from(" 恋爱 "),
            String::from("   "),
            String::from("热血"),
        ],
    }
}

#[test]
fn identity_comes_from_collect_widget() {
    let m = extract_manga_details("42", &source());
    assert_eq!(m.id, "321");
    assert_eq!(m.cover, "https://img/cover.jpg");
    assert_eq!(m.title, "某漫画");
}

#[test]
fn canonical_url_uses_requested_id() {
    let m = extract_manga_details("42", &source());
    assert_eq!(m.url, "https://se8.us/index.php/comic/42");
}

#[test]
fn ampersand_separated_authors_are_recovered() {
    let m = extract_manga_details("42", &source());
    assert_eq!(m.author, "张三, 李四");
}

#[test]
fn blank_author_pieces_are_dropped_and_trimmed() {
    let mut s = source();
    s.author_text = String::from(" Alice &  & Bob & ");
    let m = extract_manga_details("42", &s);
    assert_eq!(m.author, "Alice, Bob");
}

#[test]
fn single_author_stays_whole() {
    let mut s = source();
    s.author_text = String::from("Carol");
    let m = extract_manga_details("42", &s);
    assert_eq!(m.author, "Carol");
}

#[test]
fn description_is_trimmed_and_ellipsis_mended() {
    let m = extract_manga_details("42", &source());
    assert_eq!(m.description, "一段介绍…");
}

#[test]
fn categories_are_trimmed_and_blanks_dropped() {
    let m = extract_manga_details("42", &source());
    assert_eq!(m.categories, vec![String::from("恋爱"), String::from("热血")]);
}

#[test]
fn constant_fields_hold_site_defaults() {
    let m = extract_manga_details("42", &source());
    assert_eq!(m.artist, "");
    assert_eq!(m.status, MangaStatus::Ongoing);
    assert_eq!(m.nsfw, MangaContentRating::Nsfw);
    assert_eq!(m.viewer, MangaViewer::Scroll);
}
