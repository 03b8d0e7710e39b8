//! The filter compiler: host-supplied filter selections become a canonical
//! query descriptor (free text, tag code, completion-status code, sort key).

use vstd::prelude::*;

use crate::records::SourceError;

verus! {

/// One host-supplied filter selection. Kinds the connector does not
/// recognize arrive as `Other` and are ignored.
#[derive(Debug)]
pub enum Filter {
    /// A free-text search term.
    Title(String),
    /// A single choice, by display group name and chosen index.
    Select { name: String, index: i64 },
    /// A sort choice, by chosen index.
    Sort { index: i64 },
    /// Any other filter kind.
    Other,
}

/// The display name of the tag group.
pub open spec fn tag_group() -> Seq<char> {
    "标签"@
}

/// The display name of the completion-progress group.
pub open spec fn progress_group() -> Seq<char> {
    "进度"@
}

/// The number of entries in the tag code table.
pub open spec fn tag_table_len() -> int {
    22
}

/// The site's tag codes, by the host's option index.
pub open spec fn tag_code(i: int) -> Seq<char> {
    if i == 0 {
        Seq::empty()
    } else if i == 1 {
        "61"@
    } else if i == 2 {
        "63"@
    } else if i == 3 {
        "62"@
    } else if i == 4 {
        "64"@
    } else if i == 5 {
        "11"@
    } else if i == 6 {
        "15"@
    } else if i == 7 {
        "17"@
    } else if i == 8 {
        "29"@
    } else if i == 9 {
        "31"@
    } else if i == 10 {
        "67"@
    } else if i == 11 {
        "68"@
    } else if i == 12 {
        "69"@
    } else if i == 13 {
        "75"@
    } else if i == 14 {
        "78"@
    } else if i == 15 {
        "84"@
    } else if i == 16 {
        "86"@
    } else if i == 17 {
        "87"@
    } else if i == 18 {
        "91"@
    } else if i == 19 {
        "98"@
    } else if i == 20 {
        "106"@
    } else {
        "114"@
    }
}

/// The site's completion-status codes, by the host's option index.
pub open spec fn finish_code(i: int) -> Seq<char> {
    if i == 0 {
        Seq::empty()
    } else if i == 1 {
        "1"@
    } else {
        "2"@
    }
}

/// The site's sort keys, by the host's option index.
pub open spec fn order_key(i: int) -> Seq<char> {
    if i == 0 {
        "hits"@
    } else {
        "addtime"@
    }
}

/// The tag code for a valid index.
pub fn tag_code_at(i: usize) -> (r: &'static str)
    requires
        i < tag_table_len(),
    ensures
        r@ == tag_code(i as int),
{
    let r: &'static str = match i {
        0 => "",
        1 => "61",
        2 => "63",
        3 => "62",
        4 => "64",
        5 => "11",
        6 => "15",
        7 => "17",
        8 => "29",
        9 => "31",
        10 => "67",
        11 => "68",
        12 => "69",
        13 => "75",
        14 => "78",
        15 => "84",
        16 => "86",
        17 => "87",
        18 => "91",
        19 => "98",
        20 => "106",
        _ => "114",
    };
    proof {
        reveal_strlit("");
        assert(""@ =~= Seq::<char>::empty());
    }
    r
}

/// The completion-status code for a valid index.
pub fn finish_code_at(i: usize) -> (r: &'static str)
    requires
        i < 3,
    ensures
        r@ == finish_code(i as int),
{
    let r: &'static str = match i {
        0 => "",
        1 => "1",
        _ => "2",
    };
    proof {
        reveal_strlit("");
        assert(""@ =~= Seq::<char>::empty());
    }
    r
}

/// The sort key for a valid index.
pub fn order_key_at(i: usize) -> (r: &'static str)
    requires
        i < 2,
    ensures
        r@ == order_key(i as int),
{
    match i {
        0 => "hits",
        _ => "addtime",
    }
}

/// A selection the host was allowed to send: every recognized choice's
/// index lies inside its lookup table.
pub open spec fn filter_ok(f: Filter) -> bool {
    match f {
        Filter::Select { name, index } => (name@ == tag_group() ==> 0 <= index
            < tag_table_len()) && (name@ == progress_group() ==> 0 <= index < 3),
        Filter::Sort { index } => 0 <= index < 2,
        _ => true,
    }
}

/// Every selection in the request is allowed.
pub open spec fn filters_ok(fs: Seq<Filter>) -> bool {
    forall|i: int| 0 <= i < fs.len() ==> filter_ok(#[trigger] fs[i])
}

/// The compiled free-text term: the last free-text selection wins; none
/// leaves it empty.
pub open spec fn sel_free_text(fs: Seq<Filter>) -> Seq<char>
    decreases fs.len(),
{
    if fs.len() == 0 {
        Seq::empty()
    } else {
        match fs.last() {
            Filter::Title(s) => s@,
            _ => sel_free_text(fs.drop_last()),
        }
    }
}

/// The compiled tag code: the last tag-group choice wins; none leaves it
/// empty.
pub open spec fn sel_tag(fs: Seq<Filter>) -> Seq<char>
    decreases fs.len(),
{
    if fs.len() == 0 {
        Seq::empty()
    } else {
        match fs.last() {
            Filter::Select { name, index } => if name@ == tag_group() {
                tag_code(index as int)
            } else {
                sel_tag(fs.drop_last())
            },
            _ => sel_tag(fs.drop_last()),
        }
    }
}

/// The compiled completion-status code: the last progress-group choice
/// wins; none leaves it empty.
pub open spec fn sel_status(fs: Seq<Filter>) -> Seq<char>
    decreases fs.len(),
{
    if fs.len() == 0 {
        Seq::empty()
    } else {
        match fs.last() {
            Filter::Select { name, index } => if name@ == progress_group() {
                finish_code(index as int)
            } else {
                sel_status(fs.drop_last())
            },
            _ => sel_status(fs.drop_last()),
        }
    }
}

/// The compiled sort key: the last sort choice wins; none leaves the
/// default, sorting by hits.
pub open spec fn sel_sort(fs: Seq<Filter>) -> Seq<char>
    decreases fs.len(),
{
    if fs.len() == 0 {
        "hits"@
    } else {
        match fs.last() {
            Filter::Sort { index } => order_key(index as int),
            _ => sel_sort(fs.drop_last()),
        }
    }
}

/// The compiled query descriptor. When the free text is non-empty the URL
/// builder ignores the other three fields: the site's search endpoint does
/// not facet.
#[derive(Debug)]
pub struct QueryDescriptor {
    pub free_text: String,
    pub tag_code: String,
    pub status_code: String,
    pub sort_key: String,
}

/// The mathematical view of a query descriptor.
pub ghost struct QueryView {
    pub free_text: Seq<char>,
    pub tag_code: Seq<char>,
    pub status_code: Seq<char>,
    pub sort_key: Seq<char>,
}

impl View for QueryDescriptor {
    type V = QueryView;

    open spec fn view(&self) -> QueryView {
        QueryView {
            free_text: self.free_text@,
            tag_code: self.tag_code@,
            status_code: self.status_code@,
            sort_key: self.sort_key@,
        }
    }
}

/// The descriptor the whole selection sequence compiles to.
pub open spec fn compiled_query(fs: Seq<Filter>) -> QueryView {
    QueryView {
        free_text: sel_free_text(fs),
        tag_code: sel_tag(fs),
        status_code: sel_status(fs),
        sort_key: sel_sort(fs),
    }
}

fn name_is(name: &String, lit: &str) -> (r: bool)
    ensures
        r == (name@ == lit@),
{
    let l = String::from_str(lit);
    *name == l
}

/// Compiles the host's filter selections into a query descriptor. Fails,
/// as the host contract demands, exactly when some recognized choice's
/// index lies outside its lookup table.
pub fn compile_filters(filters: &Vec<Filter>) -> (r: Result<QueryDescriptor, SourceError>)
    ensures
        r is Ok <==> filters_ok(filters@),
        r matches Ok(q) ==> q@ == compiled_query(filters@),
        r is Err ==> r == Err::<QueryDescriptor, SourceError>(SourceError::SelectionIndexOutOfRange),
{
    proof {
        reveal_strlit("标签");
        reveal_strlit("进度");
        assert(tag_group()[0] == '标' && progress_group()[0] == '进');
        assert(tag_group() != progress_group());
        assert(filters@.take(0) =~= Seq::<Filter>::empty());
    }
    let mut query = String::new();
    let mut tag = String::new();
    let mut status = String::new();
    let mut order = String::from_str("hits");
    let mut i: usize = 0;
    while i < filters.len()
        invariant
            i <= filters@.len(),
            filters_ok(filters@.take(i as int)),
            query@ == sel_free_text(filters@.take(i as int)),
            tag@ == sel_tag(filters@.take(i as int)),
            status@ == sel_status(filters@.take(i as int)),
            order@ == sel_sort(filters@.take(i as int)),
            tag_group() != progress_group(),
        decreases filters@.len() - i,
    {
        proof {
            assert(filters@.take(i + 1 as int).drop_last() =~= filters@.take(i as int));
            assert(filters@.take(i + 1 as int).last() == filters@[i as int]);
        }
        match &filters[i] {
            Filter::Title(s) => {
                query = s.clone();
            },
            Filter::Select { name, index } => {
                if name_is(name, "标签") {
                    if *index < 0 || *index >= 22 {
                        proof {
                            assert(!filter_ok(filters@[i as int]));
                        }
                        return Err(SourceError::SelectionIndexOutOfRange);
                    }
                    tag = String::from_str(tag_code_at(*index as usize));
                } else if name_is(name, "进度") {
                    if *index < 0 || *index >= 3 {
                        proof {
                            assert(!filter_ok(filters@[i as int]));
                        }
                        return Err(SourceError::SelectionIndexOutOfRange);
                    }
                    status = String::from_str(finish_code_at(*index as usize));
                }
            },
            Filter::Sort { index } => {
                if *index < 0 || *index >= 2 {
                    proof {
                        assert(!filter_ok(filters@[i as int]));
                    }
                    return Err(SourceError::SelectionIndexOutOfRange);
                }
                order = String::from_str(order_key_at(*index as usize));
            },
            Filter::Other => {},
        }
        proof {
            assert(filter_ok(filters@[i as int]));
            assert(forall|k: int|
                0 <= k < i ==> filters@.take(i + 1 as int)[k] == #[trigger] filters@.take(
                    i as int,
                )[k]);
            assert(filters_ok(filters@.take(i + 1 as int)));
        }
        i = i + 1;
    }
    proof {
        assert(filters@.take(filters@.len() as int) =~= filters@);
    }
    Ok(QueryDescriptor { free_text: query, tag_code: tag, status_code: status, sort_key: order })
}

} // verus!
