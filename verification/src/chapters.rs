//! The chapter-list extractor: entries of the chapter API's JSON array
//! become chapter records, titles entity-decoded, numbered by their 1-based
//! position in the latest-first input, and returned earliest-first.

use vstd::prelude::*;

use crate::records::Chapter;
use crate::records::ChapterView;
use crate::records::SourceError;
use crate::strings::chars_to_string;
use crate::strings::str_chars;
use crate::strings::string_chars;
use crate::text::contains_seq;
use crate::text::lemma_replace_absent;
use crate::text::replace_all;
use crate::text::replace_chars;
use crate::text::trim;
use crate::text::trim_chars;

verus! {

/// One entry of the chapter API's `data` array. An entry that did not
/// parse as an object is `Malformed` and is skipped; in an object entry,
/// a field that was missing or not a string is `None`, which is fatal.
#[derive(Debug)]
pub enum ChapterEntry {
    Malformed,
    Entry { id: Option<String>, name: Option<String>, link: Option<String> },
}

/// The fixed ordered replacement set applied to chapter titles, literal by
/// literal.
pub open spec fn decode_entities(s: Seq<char>) -> Seq<char> {
    let s1 = replace_all(s, "&lt;"@, "<"@);
    let s2 = replace_all(s1, "&gt;"@, ">"@);
    let s3 = replace_all(s2, "&#40;"@, "("@);
    let s4 = replace_all(s3, "&#41;"@, ")"@);
    let s5 = replace_all(s4, "&ldquo;"@, "“"@);
    let s6 = replace_all(s5, "&rdquo;"@, "”"@);
    let s7 = replace_all(s6, "&hellip;"@, "…"@);
    replace_all(s7, "&hearts;"@, "♥"@)
}

/// A chapter title as emitted: trimmed, then entity-decoded.
pub open spec fn chapter_title(name: Seq<char>) -> Seq<char> {
    decode_entities(trim(name))
}

/// On text holding none of the entity literals the replacement set changes
/// nothing: decoding is idempotent on already-decoded titles.
pub proof fn lemma_decode_entities_fixed(s: Seq<char>)
    requires
        !contains_seq(s, "&lt;"@),
        !contains_seq(s, "&gt;"@),
        !contains_seq(s, "&#40;"@),
        !contains_seq(s, "&#41;"@),
        !contains_seq(s, "&ldquo;"@),
        !contains_seq(s, "&rdquo;"@),
        !contains_seq(s, "&hellip;"@),
        !contains_seq(s, "&hearts;"@),
    ensures
        decode_entities(s) == s,
        decode_entities(decode_entities(s)) == decode_entities(s),
{
    lemma_replace_absent(s, "&lt;"@, "<"@);
    lemma_replace_absent(s, "&gt;"@, ">"@);
    lemma_replace_absent(s, "&#40;"@, "("@);
    lemma_replace_absent(s, "&#41;"@, ")"@);
    lemma_replace_absent(s, "&ldquo;"@, "“"@);
    lemma_replace_absent(s, "&rdquo;"@, "”"@);
    lemma_replace_absent(s, "&hellip;"@, "…"@);
    lemma_replace_absent(s, "&hearts;"@, "♥"@);
}

/// An entry the extractor can emit or skip: either malformed as a whole,
/// or an object with all three string fields present.
pub open spec fn entry_complete(e: ChapterEntry) -> bool {
    match e {
        ChapterEntry::Malformed => true,
        ChapterEntry::Entry { id, name, link } => id is Some && name is Some && link is Some,
    }
}

/// Every entry of the response is emittable or skippable.
pub open spec fn entries_ok(es: Seq<ChapterEntry>) -> bool {
    forall|i: int| 0 <= i < es.len() ==> entry_complete(#[trigger] es[i])
}

/// The chapter records in the input's own (latest-first) order: the entry
/// at 0-based position `i` gets sequence number `i + 1`, and malformed
/// entries are skipped but still occupy a position.
pub open spec fn chapter_records(es: Seq<ChapterEntry>) -> Seq<ChapterView>
    decreases es.len(),
{
    if es.len() == 0 {
        Seq::empty()
    } else {
        let rest = chapter_records(es.drop_last());
        match es.last() {
            ChapterEntry::Entry { id, name, link } => rest + seq![
                ChapterView {
                    id: id.unwrap()@,
                    title: chapter_title(name.unwrap()@),
                    sequence_number: es.len() as int,
                    url: link.unwrap()@,
                },
            ],
            ChapterEntry::Malformed => rest,
        }
    }
}

/// In a list of well-formed entries, record `i` carries sequence number
/// `i + 1`.
pub proof fn lemma_chapter_sequence(es: Seq<ChapterEntry>)
    requires
        forall|i: int| 0 <= i < es.len() ==> #[trigger] es[i] is Entry,
    ensures
        chapter_records(es).len() == es.len(),
        forall|i: int|
            0 <= i < es.len() ==> #[trigger] chapter_records(es)[i].sequence_number == i + 1,
    decreases es.len(),
{
    if es.len() > 0 {
        assert(forall|k: int| 0 <= k < es.len() - 1 ==> #[trigger] es.drop_last()[k] == es[k]);
        lemma_chapter_sequence(es.drop_last());
    }
}

/// The emitted list is an order reversal: with N well-formed entries, the
/// record at output position k carries sequence number N - k, so the
/// earliest chapter comes first.
pub proof fn lemma_chapter_order_reversal(es: Seq<ChapterEntry>)
    requires
        forall|i: int| 0 <= i < es.len() ==> #[trigger] es[i] is Entry,
    ensures
        chapter_records(es).reverse().len() == es.len(),
        forall|k: int|
            0 <= k < es.len() ==> #[trigger] chapter_records(es).reverse()[k].sequence_number
                == es.len() - k,
        forall|k: int|
            0 <= k < es.len() ==> #[trigger] chapter_records(es).reverse()[k] == chapter_records(
                es,
            )[es.len() - 1 - k],
{
    lemma_chapter_sequence(es);
}

fn decode_title(name: &String) -> (r: String)
    ensures
        r@ == chapter_title(name@),
{
    let chars = string_chars(name);
    let t = trim_chars(&chars);
    let s1 = replace_chars(&t, &str_chars("&lt;"), &str_chars("<"));
    let s2 = replace_chars(&s1, &str_chars("&gt;"), &str_chars(">"));
    let s3 = replace_chars(&s2, &str_chars("&#40;"), &str_chars("("));
    let s4 = replace_chars(&s3, &str_chars("&#41;"), &str_chars(")"));
    let s5 = replace_chars(&s4, &str_chars("&ldquo;"), &str_chars("“"));
    let s6 = replace_chars(&s5, &str_chars("&rdquo;"), &str_chars("”"));
    let s7 = replace_chars(&s6, &str_chars("&hellip;"), &str_chars("…"));
    let s8 = replace_chars(&s7, &str_chars("&hearts;"), &str_chars("♥"));
    chars_to_string(&s8)
}

/// Extracts the chapter list from the entries of the API's `data` array,
/// given latest-first; the result is that list reversed, earliest first.
/// Fails exactly when an object entry lacks one of its three string
/// fields; entries that are not objects are skipped.
pub fn extract_chapter_list(entries: &Vec<ChapterEntry>) -> (r: Result<
    Vec<Chapter>,
    SourceError,
>)
    ensures
        r is Ok <==> entries_ok(entries@),
        r matches Ok(cs) ==> cs@.map_values(|c: Chapter| c@) == chapter_records(
            entries@,
        ).reverse(),
        r is Err ==> r == Err::<Vec<Chapter>, SourceError>(SourceError::MissingChapterField),
{
    let mut out: Vec<Chapter> = Vec::new();
    let mut i: usize = 0;
    proof {
        assert(out@.map_values(|c: Chapter| c@) =~= chapter_records(entries@.take(0)));
    }
    while i < entries.len()
        invariant
            i <= entries@.len(),
            entries_ok(entries@.take(i as int)),
            out@.map_values(|c: Chapter| c@) == chapter_records(entries@.take(i as int)),
        decreases entries@.len() - i,
    {
        proof {
            assert(entries@.take(i + 1 as int).drop_last() =~= entries@.take(i as int));
            assert(entries@.take(i + 1 as int).last() == entries@[i as int]);
        }
        match &entries[i] {
            ChapterEntry::Malformed => {},
            ChapterEntry::Entry { id, name, link } => {
                match (id, name, link) {
                    (Some(idv), Some(namev), Some(linkv)) => {
                        let ghost pre = out@.map_values(|c: Chapter| c@);
                        let c = Chapter {
                            id: idv.clone(),
                            title: decode_title(namev),
                            sequence_number: i + 1,
                            url: linkv.clone(),
                        };
                        out.push(c);
                        proof {
                            let e = entries@[i as int];
                            assert(out@.map_values(|c: Chapter| c@) =~= pre + seq![
                                ChapterView {
                                    id: e->Entry_id.unwrap()@,
                                    title: chapter_title(e->Entry_name.unwrap()@),
                                    sequence_number: i + 1,
                                    url: e->Entry_link.unwrap()@,
                                },
                            ]);
                        }
                    },
                    _ => {
                        proof {
                            assert(!entry_complete(entries@[i as int]));
                        }
                        return Err(SourceError::MissingChapterField);
                    },
                }
            },
        }
        proof {
            assert(entry_complete(entries@[i as int]));
            assert(forall|k: int|
                0 <= k < i ==> entries@.take(i + 1 as int)[k] == #[trigger] entries@.take(
                    i as int,
                )[k]);
            assert(entries_ok(entries@.take(i + 1 as int)));
        }
        i = i + 1;
    }
    proof {
        assert(entries@.take(entries@.len() as int) =~= entries@);
    }
    let ghost total = chapter_records(entries@);
    let mut rev: Vec<Chapter> = Vec::new();
    proof {
        assert(out@.map_values(|c: Chapter| c@) =~= total.take(out@.len() as int));
        assert(rev@.map_values(|c: Chapter| c@) =~= total.reverse().take(
            total.len() - out@.len(),
        ));
    }
    while out.len() > 0
        invariant
            out@.len() <= total.len(),
            total == chapter_records(entries@),
            out@.map_values(|c: Chapter| c@) == total.take(out@.len() as int),
            rev@.map_values(|c: Chapter| c@) == total.reverse().take(total.len() - out@.len()),
        decreases out@.len(),
    {
        let ghost n = out@.len() as int;
        let ghost out_pre = out@;
        let ghost rev_pre = rev@.map_values(|c: Chapter| c@);
        let c = match out.pop() {
            Some(c) => c,
            None => {
                proof {
                    assert(false);
                }
                return Err(SourceError::MissingChapterField);
            },
        };
        proof {
            assert(c@ == out_pre.map_values(|c: Chapter| c@)[n - 1]);
            assert(c@ == total[n - 1]);
            assert(out@.map_values(|c: Chapter| c@) =~= total.take(n - 1));
            assert(total.reverse()[total.len() - n] == total[n - 1]);
        }
        rev.push(c);
        proof {
            assert(rev@.map_values(|c: Chapter| c@) =~= rev_pre.push(total[n - 1]));
            assert(rev@.map_values(|c: Chapter| c@) =~= total.reverse().take(
                total.len() - (n - 1),
            ));
        }
    }
    proof {
        assert(total.reverse().take(total.len() as int) =~= total.reverse());
    }
    Ok(rev)
}

} // verus!
