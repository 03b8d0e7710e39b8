//! The page-list extractor: reader-page image nodes become page records
//! with their zero-based position and trimmed image URL.

use vstd::prelude::*;

use crate::records::Page;
use crate::records::PageView;
use crate::strings::chars_to_string;
use crate::strings::string_chars;
use crate::text::trim;
use crate::text::trim_chars;

verus! {

/// The records of all image nodes that resolved, in document order. A
/// record keeps the node's position among all matched nodes, resolved or
/// not, and its `data-original` attribute trimmed.
pub open spec fn page_records(items: Seq<Option<String>>) -> Seq<PageView>
    decreases items.len(),
{
    if items.len() == 0 {
        Seq::empty()
    } else {
        let rest = page_records(items.drop_last());
        match items.last() {
            Some(u) => rest + seq![PageView { index: items.len() - 1, image_url: trim(u@) }],
            None => rest,
        }
    }
}

/// How many of the nodes resolved.
pub open spec fn count_resolved(items: Seq<Option<String>>) -> int
    decreases items.len(),
{
    if items.len() == 0 {
        0int
    } else {
        count_resolved(items.drop_last()) + if items.last() is Some {
            1int
        } else {
            0int
        }
    }
}

/// A node without a resolvable reference is skipped, never fatal: the page
/// list holds exactly one record per node that resolved.
pub proof fn lemma_pages_skip_malformed(items: Seq<Option<String>>)
    ensures
        page_records(items).len() == count_resolved(items),
    decreases items.len(),
{
    if items.len() > 0 {
        lemma_pages_skip_malformed(items.drop_last());
    }
}

/// Extracts a chapter's page image records from the `data-original`
/// attributes of its reader-page image nodes, in document order, skipping
/// nodes that failed to resolve.
pub fn extract_page_list(items: &Vec<Option<String>>) -> (r: Vec<Page>)
    ensures
        r@.map_values(|p: Page| p@) == page_records(items@),
{
    let mut pages: Vec<Page> = Vec::new();
    let mut i: usize = 0;
    proof {
        assert(pages@.map_values(|p: Page| p@) =~= page_records(items@.take(0)));
    }
    while i < items.len()
        invariant
            i <= items@.len(),
            pages@.map_values(|p: Page| p@) == page_records(items@.take(i as int)),
        decreases items@.len() - i,
    {
        proof {
            assert(items@.take(i + 1 as int).drop_last() =~= items@.take(i as int));
            assert(items@.take(i + 1 as int).last() == items@[i as int]);
        }
        match &items[i] {
            Some(u) => {
                let ghost pre = pages@.map_values(|p: Page| p@);
                let chars = string_chars(u);
                let trimmed = trim_chars(&chars);
                let p = Page { index: i, image_url: chars_to_string(&trimmed) };
                pages.push(p);
                proof {
                    assert(pages@.map_values(|p: Page| p@) =~= pre + seq![
                        PageView { index: i as int, image_url: trim(items@[i as int].unwrap()@) },
                    ]);
                }
            },
            None => {},
        }
        i = i + 1;
    }
    proof {
        assert(items@.take(items@.len() as int) =~= items@);
    }
    pages
}

} // verus!
