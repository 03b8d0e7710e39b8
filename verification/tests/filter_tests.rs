use zh_se8::filters::compile_filters;
use zh_se8::filters::Filter;
use zh_se8::records::SourceError;

const TAG_CODES: [&str; 22] = [
    "", "61", "63", "62", "64", "11", "15", "17", "29", "31", "67", "68", "69", "75", "78", "84",
    "86", "87", "91", "98", "106", "114",
];

fn tag_select(index: i64) -> Filter {
    Filter::Select { name: String::from("标签"), index }
}

fn progress_select(index: i64) -> Filter {
    Filter::Select { name: String::from("进度"), index }
}

#[test]
fn tag_codes_match_table() {
    for (i, code) in TAG_CODES.iter().enumerate() {
        let q = compile_filters(&vec![tag_select(i as i64)]).unwrap();
        assert_eq!(q.tag_code, *code);
    }
}

#[test]
fn status_codes_match_table() {
    let expected = ["", "1", "2"];
    for (i, code) in expected.iter().enumerate() {
        let q = compile_filters(&vec![progress_select(i as i64)]).unwrap();
        assert_eq!(q.status_code, *code);
    }
}

#[test]
fn sort_keys_match_table() {
    let expected = ["hits", "addtime"];
    for (i, key) in expected.iter().enumerate() {
        let q = compile_filters(&vec![Filter::Sort { index: i as i64 }]).unwrap();
        assert_eq!(q.sort_key, *key);
    }
}

#[test]
fn tag_index_past_table_fails() {
    let r = compile_filters(&vec![tag_select(22)]);
    assert_eq!(r.unwrap_err(), SourceError::SelectionIndexOutOfRange);
}

#[test]
fn status_index_past_table_fails() {
    let r = compile_filters(&vec![progress_select(3)]);
    assert_eq!(r.unwrap_err(), SourceError::SelectionIndexOutOfRange);
}

#[test]
fn sort_index_past_table_fails() {
    let r = compile_filters(&vec![Filter::Sort { index: 2 }]);
    assert_eq!(r.unwrap_err(), SourceError::SelectionIndexOutOfRange);
}

#[test]
fn negative_index_fails() {
    let r = compile_filters(&vec![tag_select(-1)]);
    assert_eq!(r.unwrap_err(), SourceError::SelectionIndexOutOfRange);
}

#[test]
fn defaults_without_selections() {
    let q = compile_filters(&vec![]).unwrap();
    assert_eq!(q.free_text, "");
    assert_eq!(q.tag_code, "");
    assert_eq!(q.status_code, "");
    assert_eq!(q.sort_key, "hits");
}

#[test]
fn last_selection_wins() {
    let q = compile_filters(&vec![
        tag_select(1),
        Filter::Title(String::from("first")),
        tag_select(3),
        Filter::Title(String::from("second")),
    ])
    .unwrap();
    assert_eq!(q.tag_code, "62");
    assert_eq!(q.free_text, "second");
}

#[test]
fn unrecognized_group_is_ignored() {
    let q = compile_filters(&vec![Filter::Select { name: String::from("other"), index: 99 }])
        .unwrap();
    assert_eq!(q.tag_code, "");
    assert_eq!(q.status_code, "");
}

#[test]
fn other_filter_kinds_are_ignored() {
    let q = compile_filters(&vec![Filter::Other, tag_select(5), Filter::Other]).unwrap();
    assert_eq!(q.tag_code, "11");
}

#[test]
fn all_groups_combine() {
    let q = compile_filters(&vec![
        tag_select(4),
        progress_select(1),
        Filter::Sort { index: 1 },
        Filter::Title(String::from("雪")),
    ])
    .unwrap();
    assert_eq!(q.tag_code, "64");
    assert_eq!(q.status_code, "1");
    assert_eq!(q.sort_key, "addtime");
    assert_eq!(q.free_text, "雪");
}
