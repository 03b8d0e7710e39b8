//! The listing extractor: catalog-item nodes become series summaries, in
//! document order; nodes that failed to resolve are skipped.

use vstd::prelude::*;

use crate::records::Manga;
use crate::records::MangaContentRating;
use crate::records::MangaPageResult;
use crate::records::MangaStatus;
use crate::records::MangaView;
use crate::records::MangaViewer;
use crate::strings::chars_to_string;
use crate::strings::string_chars;
use crate::text::last_segment;
use crate::text::last_segment_chars;

verus! {

/// The values read out of one catalog-item node: the anchor's `href`, the
/// image's `data-original` attribute, the second paragraph anchor's text.
#[derive(Debug)]
pub struct ListingItem {
    pub href: String,
    pub cover: String,
    pub title: String,
}

/// The summary one well-formed node yields: the id is the last path
/// segment of the detail link; metadata fields keep their empty defaults,
/// which a listing page does not provide.
pub open spec fn listing_record(it: ListingItem) -> MangaView {
    MangaView {
        id: last_segment(it.href@),
        cover: it.cover@,
        title: it.title@,
        author: Seq::empty(),
        artist: Seq::empty(),
        description: Seq::empty(),
        url: Seq::empty(),
        categories: Seq::empty(),
        status: MangaStatus::Unknown,
        nsfw: MangaContentRating::Safe,
        viewer: MangaViewer::Unspecified,
    }
}

/// The records of all nodes that resolved, in document order.
pub open spec fn listing_records(items: Seq<Option<ListingItem>>) -> Seq<MangaView>
    decreases items.len(),
{
    if items.len() == 0 {
        Seq::empty()
    } else {
        let rest = listing_records(items.drop_last());
        match items.last() {
            Some(it) => rest + seq![listing_record(it)],
            None => rest,
        }
    }
}

/// How many of the nodes resolved.
pub open spec fn count_present(items: Seq<Option<ListingItem>>) -> int
    decreases items.len(),
{
    if items.len() == 0 {
        0int
    } else {
        count_present(items.drop_last()) + if items.last() is Some {
            1int
        } else {
            0int
        }
    }
}

/// A malformed node is skipped, never fatal: the listing holds exactly one
/// record per node that resolved, however many did not.
pub proof fn lemma_listing_skips_malformed(items: Seq<Option<ListingItem>>)
    ensures
        listing_records(items).len() == count_present(items),
    decreases items.len(),
{
    if items.len() > 0 {
        lemma_listing_skips_malformed(items.drop_last());
    }
}

fn listing_manga(it: &ListingItem) -> (r: Manga)
    ensures
        r@ == listing_record(*it),
{
    let href = string_chars(&it.href);
    let id_chars = last_segment_chars(&href);
    let r = Manga {
        id: chars_to_string(&id_chars),
        cover: it.cover.clone(),
        title: it.title.clone(),
        author: String::new(),
        artist: String::new(),
        description: String::new(),
        url: String::new(),
        categories: Vec::new(),
        status: MangaStatus::Unknown,
        nsfw: MangaContentRating::Safe,
        viewer: MangaViewer::Unspecified,
    };
    proof {
        assert(r@.categories =~= Seq::<Seq<char>>::empty());
    }
    r
}

/// Extracts a catalog page's series summaries from its item nodes, in
/// document order, skipping nodes that failed to resolve. More pages are
/// always reported: the site gives no end-of-list signal, and the host is
/// expected to detect an empty page instead.
pub fn extract_manga_list(items: &Vec<Option<ListingItem>>) -> (r: MangaPageResult)
    ensures
        r.has_more,
        r.manga@.map_values(|m: Manga| m@) == listing_records(items@),
{
    let mut mangas: Vec<Manga> = Vec::new();
    let mut i: usize = 0;
    proof {
        assert(mangas@.map_values(|m: Manga| m@) =~= listing_records(items@.take(0)));
    }
    while i < items.len()
        invariant
            i <= items@.len(),
            mangas@.map_values(|m: Manga| m@) == listing_records(items@.take(i as int)),
        decreases items@.len() - i,
    {
        proof {
            assert(items@.take(i + 1 as int).drop_last() =~= items@.take(i as int));
            assert(items@.take(i + 1 as int).last() == items@[i as int]);
        }
        match &items[i] {
            Some(it) => {
                let ghost pre = mangas@.map_values(|m: Manga| m@);
                let m = listing_manga(it);
                mangas.push(m);
                proof {
                    assert(mangas@.map_values(|m: Manga| m@) =~= pre + seq![
                        listing_record(items@[i as int].unwrap()),
                    ]);
                }
            },
            None => {},
        }
        i = i + 1;
    }
    proof {
        assert(items@.take(items@.len() as int) =~= items@);
    }
    MangaPageResult { manga: mangas, has_more: true }
}

} // verus!
