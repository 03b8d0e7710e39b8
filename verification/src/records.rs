//! The normalized records handed back to the host, their mathematical
//! views, and the connector's error type.

use vstd::prelude::*;

verus! {

/// A fatal failure of an entry operation.
///
/// Transport and document-parse failures live with the fetch collaborator
/// and never reach this library; these are the faults its own logic finds.
#[derive(Clone, Copy, Debug, PartialEq, Eq, Structural)]
pub enum SourceError {
    /// A single-choice or sort selection carried an index outside its
    /// lookup table: a contract violation by the host.
    SelectionIndexOutOfRange,
    /// A chapter entry parsed as an object but lacked a string `id`,
    /// `name` or `link` field.
    MissingChapterField,
}

/// Publication status of a series.
#[derive(Clone, Copy, Debug, PartialEq, Eq, Structural)]
pub enum MangaStatus {
    Unknown,
    Ongoing,
    Completed,
}

/// Content rating of a series.
#[derive(Clone, Copy, Debug, PartialEq, Eq, Structural)]
pub enum MangaContentRating {
    Safe,
    Suggestive,
    Nsfw,
}

/// Reading-direction hint for the host's reader view.
#[derive(Clone, Copy, Debug, PartialEq, Eq, Structural)]
pub enum MangaViewer {
    Unspecified,
    LeftToRight,
    RightToLeft,
    Scroll,
}

/// A series record: a bare summary in listings (identity, cover, title),
/// filled out with metadata by the detail extractor.
#[derive(Debug)]
pub struct Manga {
    pub id: String,
    pub cover: String,
    pub title: String,
    pub author: String,
    pub artist: String,
    pub description: String,
    pub url: String,
    pub categories: Vec<String>,
    pub status: MangaStatus,
    pub nsfw: MangaContentRating,
    pub viewer: MangaViewer,
}

/// The mathematical view of a series record.
pub ghost struct MangaView {
    pub id: Seq<char>,
    pub cover: Seq<char>,
    pub title: Seq<char>,
    pub author: Seq<char>,
    pub artist: Seq<char>,
    pub description: Seq<char>,
    pub url: Seq<char>,
    pub categories: Seq<Seq<char>>,
    pub status: MangaStatus,
    pub nsfw: MangaContentRating,
    pub viewer: MangaViewer,
}

impl View for Manga {
    type V = MangaView;

    open spec fn view(&self) -> MangaView {
        MangaView {
            id: self.id@,
            cover: self.cover@,
            title: self.title@,
            author: self.author@,
            artist: self.artist@,
            description: self.description@,
            url: self.url@,
            categories: self.categories@.map_values(|c: String| c@),
            status: self.status,
            nsfw: self.nsfw,
            viewer: self.viewer,
        }
    }
}

/// One page of series summaries plus the "more pages available" flag.
#[derive(Debug)]
pub struct MangaPageResult {
    pub manga: Vec<Manga>,
    pub has_more: bool,
}

/// A chapter record: identity, decoded title, 1-based sequence number in
/// publication order, and the reader page's URL path.
#[derive(Debug)]
pub struct Chapter {
    pub id: String,
    pub title: String,
    pub sequence_number: usize,
    pub url: String,
}

/// The mathematical view of a chapter record.
pub ghost struct ChapterView {
    pub id: Seq<char>,
    pub title: Seq<char>,
    pub sequence_number: int,
    pub url: Seq<char>,
}

impl View for Chapter {
    type V = ChapterView;

    open spec fn view(&self) -> ChapterView {
        ChapterView {
            id: self.id@,
            title: self.title@,
            sequence_number: self.sequence_number as int,
            url: self.url@,
        }
    }
}

/// One page image of a chapter: zero-based position and image URL.
#[derive(Debug)]
pub struct Page {
    pub index: usize,
    pub image_url: String,
}

/// The mathematical view of a page record.
pub ghost struct PageView {
    pub index: int,
    pub image_url: Seq<char>,
}

impl View for Page {
    type V = PageView;

    open spec fn view(&self) -> PageView {
        PageView { index: self.index as int, image_url: self.image_url@ }
    }
}

} // verus!
