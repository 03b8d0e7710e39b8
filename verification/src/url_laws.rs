//! Shape laws of the listing URLs: a compiled query without free text is
//! routed to the category endpoint, and the URL it yields never holds the
//! search endpoint's path segment anywhere.

use vstd::prelude::*;

use crate::filters::compiled_query;
use crate::filters::sel_free_text;
use crate::filters::sel_sort;
use crate::filters::sel_status;
use crate::filters::sel_tag;
use crate::filters::tag_code;
use crate::filters::finish_code;
use crate::filters::Filter;
use crate::numbers::dec_str;
use crate::numbers::int_str;
use crate::text::contains_seq;
use crate::urls::base_url;
use crate::urls::category_url;
use crate::urls::listing_url_view;
use crate::urls::search_url;
use crate::encode::encode_uri;
use crate::encode::encode_char;
use crate::encode::is_kept;
use crate::encode::pct_all;

verus! {

/// A decimal digit character.
pub open spec fn is_digit(c: char) -> bool {
    let u = c as u32;
    0x30 <= u && u <= 0x39
}

/// Text of decimal digits only, as the site's tag and status codes are.
pub open spec fn all_digits(s: Seq<char>) -> bool {
    forall|j: int| 0 <= j < s.len() ==> is_digit(#[trigger] s[j])
}

spec fn has_sea_at(s: Seq<char>, j: int) -> bool {
    s[j] == 's' && s[j + 1] == 'e' && s[j + 2] == 'a'
}

spec fn no_sea(s: Seq<char>) -> bool {
    forall|j: int| 0 <= j && j + 3 <= s.len() ==> !has_sea_at(s, j)
}

spec fn all_digit_dash(s: Seq<char>) -> bool {
    forall|j: int| 0 <= j < s.len() ==> is_digit(#[trigger] s[j]) || s[j] == '-'
}

proof fn lemma_digit_dash_no_sea(s: Seq<char>)
    requires
        all_digit_dash(s),
    ensures
        no_sea(s),
{
    assert forall|j: int| 0 <= j && j + 3 <= s.len() implies !has_sea_at(s, j) by {
        assert(is_digit(s[j]) || s[j] == '-');
    }
}

proof fn lemma_no_sea_concat(s: Seq<char>, t: Seq<char>)
    requires
        no_sea(s),
        no_sea(t),
        s.len() == 0 || t.len() == 0 || (t[0] != 'a' && t[0] != 'e') || (s.last() != 's'
            && s.last() != 'e'),
    ensures
        no_sea(s + t),
{
    assert forall|j: int| 0 <= j && j + 3 <= (s + t).len() implies !has_sea_at(s + t, j) by {
        if j + 3 <= s.len() {
            assert(!has_sea_at(s, j));
            assert((s + t)[j] == s[j] && (s + t)[j + 1] == s[j + 1] && (s + t)[j + 2] == s[j + 2]);
        } else if j >= s.len() {
            let k = j - s.len();
            assert(!has_sea_at(t, k));
            assert((s + t)[j] == t[k] && (s + t)[j + 1] == t[k + 1] && (s + t)[j + 2] == t[k + 2]);
        } else if t[0] != 'a' && t[0] != 'e' {
            if j == s.len() - 2 {
                assert((s + t)[j + 2] == t[0]);
            } else {
                assert((s + t)[j + 1] == t[0]);
            }
        } else {
            if j == s.len() - 2 {
                assert((s + t)[j + 1] == s.last());
            } else {
                assert((s + t)[j] == s.last());
            }
        }
    }
}

proof fn lemma_digits_no_sea(s: Seq<char>)
    requires
        all_digits(s),
    ensures
        no_sea(s),
{
    assert forall|j: int| 0 <= j && j + 3 <= s.len() implies !has_sea_at(s, j) by {
        assert(is_digit(s[j]));
    }
}

proof fn lemma_dec_str_digits(n: nat)
    ensures
        all_digits(dec_str(n)),
        dec_str(n).len() > 0,
    decreases n,
{
    if n < 10 {
        assert(is_digit(dec_str(n)[0]));
    } else {
        lemma_dec_str_digits(n / 10);
        let prev = dec_str(n / 10);
        assert forall|j: int| 0 <= j < dec_str(n).len() implies is_digit(
            #[trigger] dec_str(n)[j],
        ) by {
            if j < prev.len() {
                assert(is_digit(prev[j]));
            } else {
                assert(dec_str(n)[j] == dec_digit_value(n));
            }
        }
    }
}

spec fn dec_digit_value(n: nat) -> char {
    crate::numbers::dec_digit((n % 10) as int)
}

proof fn lemma_int_str_chars(n: int)
    ensures
        all_digit_dash(int_str(n)),
        int_str(n).len() > 0,
        int_str(n)[0] != 'a' && int_str(n)[0] != 'e',
{
    if n < 0 {
        lemma_dec_str_digits((-n) as nat);
        let d = dec_str((-n) as nat);
        assert forall|j: int| 0 <= j < int_str(n).len() implies is_digit(#[trigger] int_str(n)[j])
            || int_str(n)[j] == '-' by {
            if j > 0 {
                assert(int_str(n)[j] == d[j - 1]);
                assert(is_digit(d[j - 1]));
            }
        }
        assert(int_str(n)[0] == '-');
    } else {
        lemma_dec_str_digits(n as nat);
        assert(is_digit(int_str(n)[0]));
    }
}

proof fn lemma_tag_code_digits(i: int)
    ensures
        all_digits(tag_code(i)),
{
    reveal_strlit("61");
    reveal_strlit("63");
    reveal_strlit("62");
    reveal_strlit("64");
    reveal_strlit("11");
    reveal_strlit("15");
    reveal_strlit("17");
    reveal_strlit("29");
    reveal_strlit("31");
    reveal_strlit("67");
    reveal_strlit("68");
    reveal_strlit("69");
    reveal_strlit("75");
    reveal_strlit("78");
    reveal_strlit("84");
    reveal_strlit("86");
    reveal_strlit("87");
    reveal_strlit("91");
    reveal_strlit("98");
    reveal_strlit("106");
    reveal_strlit("114");
}

proof fn lemma_finish_code_digits(i: int)
    ensures
        all_digits(finish_code(i)),
{
    reveal_strlit("1");
    reveal_strlit("2");
}

proof fn lemma_sel_tag_digits(fs: Seq<Filter>)
    ensures
        all_digits(sel_tag(fs)),
    decreases fs.len(),
{
    if fs.len() > 0 {
        lemma_sel_tag_digits(fs.drop_last());
        match fs.last() {
            Filter::Select { name, index } => {
                lemma_tag_code_digits(index as int);
            },
            _ => {},
        }
    }
}

proof fn lemma_sel_status_digits(fs: Seq<Filter>)
    ensures
        all_digits(sel_status(fs)),
    decreases fs.len(),
{
    if fs.len() > 0 {
        lemma_sel_status_digits(fs.drop_last());
        match fs.last() {
            Filter::Select { name, index } => {
                lemma_finish_code_digits(index as int);
            },
            _ => {},
        }
    }
}

proof fn lemma_sel_sort_table(fs: Seq<Filter>)
    ensures
        sel_sort(fs) == "hits"@ || sel_sort(fs) == "addtime"@,
    decreases fs.len(),
{
    if fs.len() > 0 {
        lemma_sel_sort_table(fs.drop_last());
    }
}

/// The category URL holds no occurrence of the search endpoint's `/search/`
/// segment, for any table-drawn codes and sort key and any page: the only
/// 's' followed by 'e' anywhere in it is the base URL's host name, where an
/// 'a' never follows.
pub proof fn lemma_category_url_never_search(
    tag: Seq<char>,
    status: Seq<char>,
    sort: Seq<char>,
    page: int,
)
    requires
        all_digits(tag),
        all_digits(status),
        sort == "hits"@ || sort == "addtime"@,
    ensures
        !contains_seq(category_url(tag, status, sort, page), "/search/"@),
{
    reveal_strlit("https://se8.us/index.php");
    reveal_strlit("/category");
    reveal_strlit("/tags/");
    reveal_strlit("/finish/");
    reveal_strlit("/order/");
    reveal_strlit("/page/");
    reveal_strlit("hits");
    reveal_strlit("addtime");
    reveal_strlit("/search/");
    let base = base_url();
    assert(no_sea(base));
    assert(no_sea("/category"@));
    assert(no_sea("/tags/"@));
    assert(no_sea("/finish/"@));
    assert(no_sea("/order/"@));
    assert(no_sea("/page/"@));
    assert(no_sea("hits"@));
    assert(no_sea("addtime"@));
    lemma_no_sea_concat(base, "/category"@);
    let a1 = base + "/category"@;
    let tagpart = if tag.len() > 0 {
        "/tags/"@ + tag
    } else {
        Seq::<char>::empty()
    };
    if tag.len() > 0 {
        lemma_digits_no_sea(tag);
        assert(tag[0] != 'a' && tag[0] != 'e') by {
            assert(is_digit(tag[0]));
        }
        lemma_no_sea_concat("/tags/"@, tag);
        lemma_no_sea_concat(a1, tagpart);
    } else {
        assert(a1 + tagpart =~= a1);
    }
    let a2 = a1 + tagpart;
    assert(no_sea(a2));
    let statuspart = if status.len() > 0 {
        "/finish/"@ + status
    } else {
        Seq::<char>::empty()
    };
    if status.len() > 0 {
        lemma_digits_no_sea(status);
        assert(status[0] != 'a' && status[0] != 'e') by {
            assert(is_digit(status[0]));
        }
        lemma_no_sea_concat("/finish/"@, status);
        lemma_no_sea_concat(a2, statuspart);
    } else {
        assert(a2 + statuspart =~= a2);
    }
    let a3 = a2 + statuspart;
    assert(no_sea(a3));
    lemma_no_sea_concat(a3, "/order/"@);
    let a4 = a3 + "/order/"@;
    assert(a4.last() == '/');
    lemma_no_sea_concat(a4, sort);
    let a5 = a4 + sort;
    lemma_no_sea_concat(a5, "/page/"@);
    let a6 = a5 + "/page/"@;
    lemma_int_str_chars(page);
    lemma_digit_dash_no_sea(int_str(page));
    lemma_no_sea_concat(a6, int_str(page));
    let a7 = a6 + int_str(page);
    assert(a7 =~= category_url(tag, status, sort, page));
    assert(no_sea(category_url(tag, status, sort, page)));
    if contains_seq(category_url(tag, status, sort, page), "/search/"@) {
        let url = category_url(tag, status, sort, page);
        let pat = "/search/"@;
        let i = choose|i: int|
            0 <= i && i + pat.len() <= url.len() && #[trigger] url.subrange(i, i + pat.len())
                == pat;
        assert(url.subrange(i, i + pat.len())[1] == url[i + 1]);
        assert(url.subrange(i, i + pat.len())[2] == url[i + 2]);
        assert(url.subrange(i, i + pat.len())[3] == url[i + 3]);
        assert(has_sea_at(url, i + 1));
        assert(false);
    }
}

/// A query compiled from any filter selections with no free text routes to
/// the category endpoint, and the listing URL it yields never includes the
/// `/search/` segment.
pub proof fn lemma_compiled_category_never_search(fs: Seq<Filter>, page: int)
    requires
        sel_free_text(fs).len() == 0,
    ensures
        listing_url_view(compiled_query(fs), page) == category_url(
            sel_tag(fs),
            sel_status(fs),
            sel_sort(fs),
            page,
        ),
        !contains_seq(listing_url_view(compiled_query(fs), page), "/search/"@),
{
    lemma_sel_tag_digits(fs);
    lemma_sel_status_digits(fs);
    lemma_sel_sort_table(fs);
    lemma_category_url_never_search(sel_tag(fs), sel_status(fs), sel_sort(fs), page);
}

/// Text without a path separator.
pub open spec fn no_slash(s: Seq<char>) -> bool {
    forall|j: int| 0 <= j < s.len() ==> #[trigger] s[j] != '/'
}

/// `w` starts `s`.
pub open spec fn has_prefix(s: Seq<char>, w: Seq<char>) -> bool {
    w.len() <= s.len() && s.subrange(0, w.len() as int) == w
}

proof fn lemma_encode_left_unfold(t: Seq<char>)
    requires
        t.len() > 0,
    ensures
        encode_uri(t) == encode_char(t[0]) + encode_uri(t.drop_first()),
    decreases t.len(),
{
    if t.len() == 1 {
        assert(t.drop_last() =~= Seq::<char>::empty());
        assert(t.drop_first() =~= Seq::<char>::empty());
        assert(encode_uri(t) =~= encode_char(t[0]) + encode_uri(t.drop_first()));
    } else {
        lemma_encode_left_unfold(t.drop_last());
        assert(t.drop_last()[0] == t[0]);
        assert(t.drop_last().drop_first() =~= t.drop_first().drop_last());
        assert(t.drop_first().last() == t.last());
        assert((encode_char(t[0]) + encode_uri(t.drop_first().drop_last())) + encode_char(t.last())
            =~= encode_char(t[0]) + (encode_uri(t.drop_first().drop_last()) + encode_char(
            t.last(),
        )));
    }
}

proof fn lemma_encode_no_slash(t: Seq<char>)
    requires
        no_slash(t),
    ensures
        no_slash(encode_uri(t)),
    decreases t.len(),
{
    if t.len() > 0 {
        assert(forall|k: int| 0 <= k < t.len() - 1 ==> #[trigger] t.drop_last()[k] == t[k]);
        lemma_encode_no_slash(t.drop_last());
        let prev = encode_uri(t.drop_last());
        let last = encode_char(t.last());
        assert(t.last() != '/');
        assert forall|j: int| 0 <= j < last.len() implies #[trigger] last[j] != '/' by {
            if !is_kept(t.last()) {
                reveal_with_fuel(pct_all, 6);
            }
        }
        assert forall|j: int| 0 <= j < encode_uri(t).len() implies #[trigger] encode_uri(t)[j]
            != '/' by {
            if j < prev.len() {
                assert(prev[j] != '/');
            } else {
                assert(encode_uri(t)[j] == last[j - prev.len()]);
            }
        }
    }
}

proof fn lemma_encode_kept_prefix(t: Seq<char>, w: Seq<char>)
    requires
        forall|k: int| 0 <= k < w.len() ==> is_kept(#[trigger] w[k]),
    ensures
        has_prefix(encode_uri(t), w) <==> has_prefix(t, w),
    decreases w.len(),
{
    if w.len() == 0 {
        assert(encode_uri(t).subrange(0, 0) =~= w);
        assert(t.subrange(0, 0) =~= w);
    } else if t.len() == 0 {
        assert(encode_uri(t).len() == 0);
    } else {
        lemma_encode_left_unfold(t);
        let head = encode_char(t[0]);
        let rest = encode_uri(t.drop_first());
        assert(forall|k: int| 0 <= k < w.len() - 1 ==> #[trigger] w.drop_first()[k] == w[k + 1]);
        lemma_encode_kept_prefix(t.drop_first(), w.drop_first());
        if !is_kept(t[0]) {
            // the escape starts with '%', which is not a kept character, so
            // neither side can start with w
            assert(head[0] == '%') by {
                reveal_with_fuel(pct_all, 6);
            }
            assert(encode_uri(t)[0] == '%');
            if has_prefix(encode_uri(t), w) {
                assert(encode_uri(t).subrange(0, w.len() as int)[0] == w[0]);
                assert(is_kept('%'));
                assert(false);
            }
            if has_prefix(t, w) {
                assert(t.subrange(0, w.len() as int)[0] == w[0]);
                assert(is_kept(t[0]));
                assert(false);
            }
        } else {
            assert(head =~= seq![t[0]]);
            assert(encode_uri(t)[0] == t[0]);
            assert(encode_uri(t).len() == 1 + rest.len());
            assert(forall|k: int|
                1 <= k < encode_uri(t).len() ==> #[trigger] encode_uri(t)[k] == rest[k - 1]);
            if has_prefix(encode_uri(t), w) {
                assert(encode_uri(t).subrange(0, w.len() as int)[0] == w[0]);
                assert(t[0] == w[0]);
                assert(rest.subrange(0, w.len() - 1) =~= w.drop_first()) by {
                    assert(forall|k: int|
                        0 <= k < w.len() - 1 ==> #[trigger] rest.subrange(0, w.len() - 1)[k]
                            == encode_uri(t).subrange(0, w.len() as int)[k + 1]);
                }
                assert(has_prefix(t.drop_first(), w.drop_first()));
                assert forall|k: int| 0 <= k < w.len() implies t.subrange(0, w.len() as int)[k]
                    == w[k] by {
                    if k >= 1 {
                        assert(t.drop_first().subrange(0, w.len() - 1)[k - 1] == w.drop_first()[k
                            - 1]);
                        assert(t.drop_first()[k - 1] == t[k]);
                    }
                }
                assert(t.subrange(0, w.len() as int) =~= w);
            }
            if has_prefix(t, w) {
                assert(t.subrange(0, w.len() as int)[0] == w[0]);
                assert(t[0] == w[0]);
                assert(t.drop_first().subrange(0, w.len() - 1) =~= w.drop_first()) by {
                    assert(forall|k: int|
                        0 <= k < w.len() - 1 ==> #[trigger] t.drop_first().subrange(
                            0,
                            w.len() - 1,
                        )[k] == t.subrange(0, w.len() as int)[k + 1]);
                }
                assert(has_prefix(encode_uri(t.drop_first()), w.drop_first()));
                assert(encode_uri(t).subrange(0, w.len() as int) =~= w) by {
                    let ew = encode_uri(t.drop_first()).subrange(0, w.len() - 1);
                    assert(ew =~= w.drop_first());
                    assert(forall|k: int|
                        1 <= k < w.len() ==> #[trigger] encode_uri(t).subrange(
                            0,
                            w.len() as int,
                        )[k] == ew[k - 1]);
                }
            }
        }
    }
}

/// The search URL holds no occurrence of the category endpoint's
/// `/category` segment, for a term without a path separator that does not
/// itself begin with "category". (A term such as "category" or "a/category"
/// is carried into the URL verbatim by the percent encoder, which keeps '/'
/// and letters, so for those terms the claim would be false.)
pub proof fn lemma_search_url_never_category(term: Seq<char>, page: int)
    requires
        no_slash(term),
        !has_prefix(term, "category"@),
    ensures
        !contains_seq(search_url(term, page), "/category"@),
{
    reveal_strlit("https://se8.us/index.php");
    reveal_strlit("/search/");
    reveal_strlit("/");
    reveal_strlit("/category");
    reveal_strlit("category");
    let base = base_url();
    let enc = encode_uri(term);
    let num = int_str(page);
    assert(forall|k: int| 0 <= k < "category"@.len() ==> is_kept(#[trigger] "category"@[k]));
    lemma_encode_kept_prefix(term, "category"@);
    lemma_encode_no_slash(term);
    lemma_int_str_chars(page);
    let u1 = base + "/search/"@;
    let u2 = u1 + enc;
    let u3 = u2 + "/"@;
    let url = u3 + num;
    assert(url == search_url(term, page));
    let b = base.len() as int;
    let e = enc.len() as int;
    if contains_seq(url, "/category"@) {
        let pat = "/category"@;
        let i = choose|i: int|
            0 <= i && i + pat.len() <= url.len() && #[trigger] url.subrange(i, i + pat.len())
                == pat;
        assert(url.subrange(i, i + pat.len())[0] == url[i]);
        assert(url.subrange(i, i + pat.len())[1] == url[i + 1]);
        assert(url[i] == '/');
        assert(url[i + 1] == 'c');
        if i < b {
            assert(url[i] == base[i]);
            assert(i == 6 || i == 7 || i == 14);
            assert(url[i + 1] == base[i + 1]);
            assert(false);
        } else if i < b + 8 {
            assert(url[i] == "/search/"@[i - b]);
            assert(i == b || i == b + 7);
            if i == b {
                assert(url[i + 1] == "/search/"@[1]);
                assert(false);
            } else {
                // right after the search segment comes the encoded term
                if e >= 8 {
                    assert forall|k: int| 0 <= k < 8 implies enc.subrange(0, 8)[k]
                        == "category"@[k] by {
                        assert(url.subrange(i, i + pat.len())[1 + k] == url[i + 1 + k]);
                        assert(url[b + 8 + k] == enc[k]);
                    }
                    assert(enc.subrange(0, 8) =~= "category"@);
                    assert(has_prefix(enc, "category"@));
                    assert(false);
                } else {
                    // the separator slash falls inside the would-be match
                    assert(url[b + 8 + e] == '/');
                    assert(url.subrange(i, i + pat.len())[1 + e] == url[i + 1 + e]);
                    assert(url[i + 1 + e] == "category"@[e]);
                    assert(false);
                }
            }
        } else if i < b + 8 + e {
            assert(url[i] == enc[i - (b + 8)]);
            assert(false);
        } else if i == b + 8 + e {
            assert(url[i + 1] == num[0]);
            assert(is_digit(num[0]) || num[0] == '-');
            assert(false);
        } else {
            assert(url[i] == num[i - (b + 8 + e + 1)]);
            assert(is_digit(url[i]) || url[i] == '-');
            assert(false);
        }
    }
}

/// A query compiled with free text routes to the search endpoint, and —
/// for a term without a path separator that does not itself begin with
/// "category" — the listing URL it yields never includes the `/category`
/// segment.
pub proof fn lemma_compiled_search_never_category(fs: Seq<Filter>, page: int)
    requires
        sel_free_text(fs).len() > 0,
        no_slash(sel_free_text(fs)),
        !has_prefix(sel_free_text(fs), "category"@),
    ensures
        listing_url_view(compiled_query(fs), page) == search_url(sel_free_text(fs), page),
        !contains_seq(listing_url_view(compiled_query(fs), page), "/category"@),
{
    lemma_search_url_never_category(sel_free_text(fs), page);
}

} // verus!
