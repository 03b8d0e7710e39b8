//! Character-sequence utilities: whitespace trimming and ordered literal
//! replacement, the two normalization steps the extractors share.

use vstd::prelude::*;

verus! {

/// The Unicode White_Space set, the characters that `str::trim` removes.
pub open spec fn is_space(c: char) -> bool {
    let u = c as u32;
    u == 0x20 || u == 0x09 || u == 0x0a || u == 0x0d || u == 0x0b || u == 0x0c || u == 0x85
        || u == 0xa0 || u == 0x1680 || (0x2000 <= u && u <= 0x200a) || u == 0x2028 || u == 0x2029
        || u == 0x202f || u == 0x205f || u == 0x3000
}

pub open spec fn trim_start(s: Seq<char>) -> Seq<char>
    decreases s.len(),
{
    if s.len() > 0 && is_space(s[0]) {
        trim_start(s.drop_first())
    } else {
        s
    }
}

pub open spec fn trim_end(s: Seq<char>) -> Seq<char>
    decreases s.len(),
{
    if s.len() > 0 && is_space(s.last()) {
        trim_end(s.drop_last())
    } else {
        s
    }
}

/// What `str::trim` leaves: the text with leading and trailing whitespace gone.
pub open spec fn trim(s: Seq<char>) -> Seq<char> {
    trim_end(trim_start(s))
}

fn is_space_char(c: char) -> (r: bool)
    ensures
        r == is_space(c),
{
    let u = c as u32;
    u == 0x20 || u == 0x09 || u == 0x0a || u == 0x0d || u == 0x0b || u == 0x0c || u == 0x85
        || u == 0xa0 || u == 0x1680 || (0x2000 <= u && u <= 0x200a) || u == 0x2028 || u == 0x2029
        || u == 0x202f || u == 0x205f || u == 0x3000
}

/// Copies `v[from..to]` into a fresh vector.
pub fn subrange_chars(v: &Vec<char>, from: usize, to: usize) -> (r: Vec<char>)
    requires
        from <= to <= v@.len(),
    ensures
        r@ == v@.subrange(from as int, to as int),
{
    let mut r: Vec<char> = Vec::new();
    let mut i: usize = from;
    while i < to
        invariant
            from <= i <= to <= v@.len(),
            r@ == v@.subrange(from as int, i as int),
        decreases to - i,
    {
        r.push(v[i]);
        proof {
            assert(r@ =~= v@.subrange(from as int, i + 1 as int));
        }
        i = i + 1;
    }
    r
}

/// Removes leading and trailing whitespace.
pub fn trim_chars(v: &Vec<char>) -> (r: Vec<char>)
    ensures
        r@ == trim(v@),
{
    proof {
        assert(v@.skip(0) =~= v@);
    }
    let mut start: usize = 0;
    while start < v.len() && is_space_char(v[start])
        invariant
            start <= v@.len(),
            trim_start(v@) == trim_start(v@.skip(start as int)),
        decreases v@.len() - start,
    {
        proof {
            assert(v@.skip(start as int).drop_first() =~= v@.skip(start + 1 as int));
        }
        start = start + 1;
    }
    proof {
        assert(trim_start(v@) =~= v@.skip(start as int));
    }
    let ghost mid = v@.skip(start as int);
    let mut end: usize = v.len();
    while end > start && is_space_char(v[end - 1])
        invariant
            start <= end <= v@.len(),
            mid == v@.skip(start as int),
            trim_end(mid) == trim_end(v@.subrange(start as int, end as int)),
        decreases end,
    {
        proof {
            assert(v@.subrange(start as int, end as int).drop_last() =~= v@.subrange(
                start as int,
                end - 1 as int,
            ));
        }
        end = end - 1;
    }
    proof {
        assert(trim_end(mid) =~= v@.subrange(start as int, end as int));
    }
    subrange_chars(v, start, end)
}

/// The text with every occurrence of `pat` replaced by `rep`, scanning left
/// to right; an empty pattern replaces nothing.
pub open spec fn replace_all(s: Seq<char>, pat: Seq<char>, rep: Seq<char>) -> Seq<char>
    decreases s.len(),
{
    if pat.len() == 0 || s.len() == 0 {
        s
    } else if s.len() >= pat.len() && s.subrange(0, pat.len() as int) == pat {
        rep + replace_all(s.skip(pat.len() as int), pat, rep)
    } else {
        seq![s[0]] + replace_all(s.drop_first(), pat, rep)
    }
}

/// True when `pat` occurs in `s` as a contiguous run.
pub open spec fn contains_seq(s: Seq<char>, pat: Seq<char>) -> bool {
    exists|i: int| 0 <= i && i + pat.len() <= s.len() && #[trigger] s.subrange(i, i + pat.len())
        == pat
}

/// Replacing a pattern that does not occur changes nothing; applied twice to
/// such text, the replacement still changes nothing.
pub proof fn lemma_replace_absent(s: Seq<char>, pat: Seq<char>, rep: Seq<char>)
    requires
        !contains_seq(s, pat),
    ensures
        replace_all(s, pat, rep) == s,
    decreases s.len(),
{
    if pat.len() == 0 || s.len() == 0 {
    } else {
        if s.len() >= pat.len() && s.subrange(0, pat.len() as int) == pat {
            assert(contains_seq(s, pat)) by {
                assert(s.subrange(0, 0 + pat.len() as int) == pat);
            }
        }
        assert(!contains_seq(s.drop_first(), pat)) by {
            if contains_seq(s.drop_first(), pat) {
                let i = choose|i: int|
                    0 <= i && i + pat.len() <= s.drop_first().len()
                        && #[trigger] s.drop_first().subrange(i, i + pat.len()) == pat;
                assert(s.subrange(i + 1, i + 1 + pat.len()) =~= s.drop_first().subrange(
                    i,
                    i + pat.len(),
                ));
            }
        }
        lemma_replace_absent(s.drop_first(), pat, rep);
        assert(seq![s[0]] + s.drop_first() =~= s);
    }
}

fn matches_at(v: &Vec<char>, pat: &Vec<char>, i: usize) -> (r: bool)
    requires
        i <= v@.len(),
    ensures
        r == (i + pat@.len() <= v@.len() && v@.subrange(i as int, i + pat@.len()) == pat@),
{
    if pat.len() > v.len() - i {
        return false;
    }
    let mut j: usize = 0;
    while j < pat.len()
        invariant
            j <= pat@.len(),
            i + pat@.len() <= v@.len(),
            v@.len() <= usize::MAX,
            forall|k: int| 0 <= k < j ==> v@[i + k] == pat@[k],
        decreases pat@.len() - j,
    {
        proof {
            assert(i + j < v@.len());
        }
        if v[i + j] != pat[j] {
            proof {
                assert(v@.subrange(i as int, i + pat@.len())[j as int] != pat@[j as int]);
            }
            return false;
        }
        j = j + 1;
    }
    proof {
        assert(v@.subrange(i as int, i + pat@.len()) =~= pat@);
    }
    true
}

/// Replaces every occurrence of `pat` with `rep`, scanning left to right.
pub fn replace_chars(v: &Vec<char>, pat: &Vec<char>, rep: &Vec<char>) -> (r: Vec<char>)
    ensures
        r@ == replace_all(v@, pat@, rep@),
{
    if pat.len() == 0 {
        let mut r: Vec<char> = Vec::new();
        let mut i: usize = 0;
        while i < v.len()
            invariant
                i <= v@.len(),
                r@ == v@.take(i as int),
            decreases v@.len() - i,
        {
            r.push(v[i]);
            proof {
                assert(r@ =~= v@.take(i + 1 as int));
            }
            i = i + 1;
        }
        proof {
            assert(v@.take(v@.len() as int) =~= v@);
        }
        return r;
    }
    proof {
        assert(v@.skip(0) =~= v@);
    }
    let mut r: Vec<char> = Vec::new();
    let mut i: usize = 0;
    while i < v.len()
        invariant
            i <= v@.len(),
            pat@.len() > 0,
            replace_all(v@, pat@, rep@) == r@ + replace_all(v@.skip(i as int), pat@, rep@),
        decreases v@.len() - i,
    {
        if matches_at(v, pat, i) {
            proof {
                let rest = v@.skip(i as int);
                assert(rest.subrange(0, pat@.len() as int) =~= v@.subrange(
                    i as int,
                    i + pat@.len(),
                ));
                assert(rest.skip(pat@.len() as int) =~= v@.skip(i + pat@.len()));
            }
            let mut j: usize = 0;
            let ghost r_before = r@;
            while j < rep.len()
                invariant
                    j <= rep@.len(),
                    r@ == r_before + rep@.take(j as int),
                decreases rep@.len() - j,
            {
                r.push(rep[j]);
                proof {
                    assert(r@ =~= r_before + rep@.take(j + 1 as int));
                }
                j = j + 1;
            }
            proof {
                assert(rep@.take(rep@.len() as int) =~= rep@);
                assert((r_before + rep@) + replace_all(v@.skip(i + pat@.len()), pat@, rep@)
                    =~= r_before + (rep@ + replace_all(v@.skip(i + pat@.len()), pat@, rep@)));
            }
            i = i + pat.len();
        } else {
            proof {
                let rest = v@.skip(i as int);
                if rest.len() >= pat@.len() {
                    assert(rest.subrange(0, pat@.len() as int) =~= v@.subrange(
                        i as int,
                        i + pat@.len(),
                    ));
                }
                assert(rest.drop_first() =~= v@.skip(i + 1 as int));
                assert((r@ + seq![v@[i as int]]) + replace_all(v@.skip(i + 1 as int), pat@, rep@)
                    =~= r@ + (seq![v@[i as int]] + replace_all(v@.skip(i + 1 as int), pat@, rep@)));
            }
            r.push(v[i]);
            i = i + 1;
        }
    }
    proof {
        assert(v@.skip(v@.len() as int) =~= Seq::<char>::empty());
        assert(r@ + Seq::<char>::empty() =~= r@);
    }
    r
}

/// Appends all of `src` to `dst`.
pub fn append_chars(dst: &mut Vec<char>, src: &Vec<char>)
    ensures
        final(dst)@ == old(dst)@ + src@,
{
    let ghost base = dst@;
    let mut i: usize = 0;
    proof {
        assert(base =~= base + src@.take(0));
    }
    while i < src.len()
        invariant
            i <= src@.len(),
            dst@ == base + src@.take(i as int),
        decreases src@.len() - i,
    {
        dst.push(src[i]);
        proof {
            assert(dst@ =~= base + src@.take(i + 1 as int));
        }
        i = i + 1;
    }
    proof {
        assert(src@.take(src@.len() as int) =~= src@);
    }
}

/// The pieces of `s` cut at every `sep`, the accumulator holding the piece
/// begun so far; splitting yields one more piece than there are separators.
pub open spec fn split_from(s: Seq<char>, sep: char, cur: Seq<char>) -> Seq<Seq<char>>
    decreases s.len(),
{
    if s.len() == 0 {
        seq![cur]
    } else if s[0] == sep {
        seq![cur] + split_from(s.drop_first(), sep, Seq::empty())
    } else {
        split_from(s.drop_first(), sep, cur.push(s[0]))
    }
}

/// The pieces of `s` between occurrences of `sep`, in order.
pub open spec fn split_on(s: Seq<char>, sep: char) -> Seq<Seq<char>> {
    split_from(s, sep, Seq::empty())
}

/// Cuts `v` at every `sep`.
pub fn split_chars(v: &Vec<char>, sep: char) -> (r: Vec<Vec<char>>)
    ensures
        r@.map_values(|p: Vec<char>| p@) == split_on(v@, sep),
{
    let mut out: Vec<Vec<char>> = Vec::new();
    let mut cur: Vec<char> = Vec::new();
    let mut i: usize = 0;
    proof {
        assert(v@.skip(0) =~= v@);
        assert(out@.map_values(|p: Vec<char>| p@) =~= Seq::<Seq<char>>::empty());
    }
    while i < v.len()
        invariant
            i <= v@.len(),
            split_on(v@, sep) == out@.map_values(|p: Vec<char>| p@) + split_from(
                v@.skip(i as int),
                sep,
                cur@,
            ),
        decreases v@.len() - i,
    {
        proof {
            assert(v@.skip(i as int).drop_first() =~= v@.skip(i + 1 as int));
        }
        if v[i] == sep {
            let ghost outs = out@.map_values(|p: Vec<char>| p@);
            let ghost piece = cur@;
            out.push(cur);
            cur = Vec::new();
            proof {
                assert(out@.map_values(|p: Vec<char>| p@) =~= outs.push(piece));
                assert(outs.push(piece) + split_from(v@.skip(i + 1 as int), sep, Seq::empty())
                    =~= outs + (seq![piece] + split_from(v@.skip(i + 1 as int), sep, Seq::empty())));
            }
        } else {
            cur.push(v[i]);
        }
        i = i + 1;
    }
    proof {
        assert(v@.skip(v@.len() as int).len() == 0);
    }
    let ghost outs = out@.map_values(|p: Vec<char>| p@);
    let ghost piece = cur@;
    out.push(cur);
    proof {
        assert(out@.map_values(|p: Vec<char>| p@) =~= outs.push(piece));
        assert(outs.push(piece) =~= outs + seq![piece]);
    }
    out
}

/// The pieces joined with `sep` between neighbours.
pub open spec fn join_with(ps: Seq<Seq<char>>, sep: Seq<char>) -> Seq<char>
    decreases ps.len(),
{
    if ps.len() == 0 {
        Seq::empty()
    } else if ps.len() == 1 {
        ps[0]
    } else {
        join_with(ps.drop_last(), sep) + sep + ps.last()
    }
}

/// Joins the pieces with `sep` between neighbours.
pub fn join_chars(ps: &Vec<Vec<char>>, sep: &Vec<char>) -> (r: Vec<char>)
    ensures
        r@ == join_with(ps@.map_values(|p: Vec<char>| p@), sep@),
{
    let ghost view = ps@.map_values(|p: Vec<char>| p@);
    let mut r: Vec<char> = Vec::new();
    let mut k: usize = 0;
    while k < ps.len()
        invariant
            k <= ps@.len(),
            view == ps@.map_values(|p: Vec<char>| p@),
            r@ == join_with(view.take(k as int), sep@),
        decreases ps@.len() - k,
    {
        if k > 0 {
            append_chars(&mut r, sep);
        }
        append_chars(&mut r, &ps[k]);
        proof {
            assert(view.take(k + 1 as int).drop_last() =~= view.take(k as int));
            assert(view.take(k + 1 as int).last() == view[k as int]);
            if k == 0 {
                assert(join_with(view.take(1), sep@) == view[0]);
            }
        }
        k = k + 1;
    }
    proof {
        assert(view.take(view.len() as int) =~= view);
    }
    r
}

/// The suffix after the last '/' (the whole text when it has none).
pub open spec fn last_segment(s: Seq<char>) -> Seq<char>
    decreases s.len(),
{
    if s.len() == 0 {
        s
    } else if s.last() == '/' {
        Seq::empty()
    } else {
        last_segment(s.drop_last()).push(s.last())
    }
}

/// The suffix of `v` after its last '/'.
pub fn last_segment_chars(v: &Vec<char>) -> (r: Vec<char>)
    ensures
        r@ == last_segment(v@),
{
    let mut i: usize = v.len();
    proof {
        assert(v@.take(v@.len() as int) =~= v@);
        assert(last_segment(v@) =~= last_segment(v@.take(i as int)) + v@.skip(i as int));
    }
    while i > 0 && v[i - 1] != '/'
        invariant
            i <= v@.len(),
            last_segment(v@) == last_segment(v@.take(i as int)) + v@.skip(i as int),
        decreases i,
    {
        proof {
            assert(v@.take(i as int).drop_last() =~= v@.take(i - 1 as int));
            assert(last_segment(v@.take(i - 1 as int)) + (seq![v@[i - 1]] + v@.skip(i as int))
                =~= last_segment(v@.take(i as int)) + v@.skip(i as int));
            assert(seq![v@[i - 1]] + v@.skip(i as int) =~= v@.skip(i - 1 as int));
        }
        i = i - 1;
    }
    proof {
        assert(last_segment(v@.take(i as int)).len() == 0);
        assert(last_segment(v@) =~= v@.skip(i as int));
        assert(v@.skip(i as int) =~= v@.subrange(i as int, v@.len() as int));
    }
    subrange_chars(v, i, v.len())
}

} // verus!
