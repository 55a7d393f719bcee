//! Highlighting filter matches inside an application's name: the name
//! is cut into spans, each marked as part of a match or not. Matches
//! are found case-insensitively, left to right, without overlap.

use vstd::prelude::*;

use crate::application::Application;
use crate::strutil::{
    find_from, first_match_from, lemma_first_match_from_correct, lower, lower_str, match_at,
};
use vstd::string::StringExecFns;

verus! {

/// The positions of all non-overlapping occurrences of the needle, left
/// to right: each next search starts where the previous match ended.
pub open spec fn match_seq(hay: Seq<char>, needle: Seq<char>, from: int) -> Seq<int>
    decreases hay.len() - from + 1,
{
    if needle.len() == 0 || from < 0 {
        Seq::empty()
    } else {
        match first_match_from(hay, needle, from) {
            None => Seq::empty(),
            Some(i) => if from <= i && i + needle.len() <= hay.len() {
                seq![i] + match_seq(hay, needle, i + needle.len())
            } else {
                seq![i]
            },
        }
    }
}

/// One piece of a name, marked when it is part of a filter match.
#[derive(Debug)]
pub struct HighlightSpan {
    pub text: String,
    pub matched: bool,
}

impl View for HighlightSpan {
    type V = (Seq<char>, bool);

    open spec fn view(&self) -> (Seq<char>, bool) {
        (self.text@, self.matched)
    }
}

impl Clone for HighlightSpan {
    fn clone(&self) -> (r: Self)
        ensures
            r@ == self@,
    {
        HighlightSpan { text: self.text.clone(), matched: self.matched }
    }
}

/// The span views of a vector of spans.
pub open spec fn span_views(s: Seq<HighlightSpan>) -> Seq<(Seq<char>, bool)> {
    s.map_values(|h: HighlightSpan| h@)
}

/// The spans from the `k`-th match on: the matched piece, then the
/// unmatched gap up to the next match or the end of the name.
pub open spec fn spans_from(name: Seq<char>, flen: int, ms: Seq<int>, k: int) -> Seq<
    (Seq<char>, bool),
>
    decreases ms.len() - k,
{
    if k < 0 || k >= ms.len() {
        Seq::empty()
    } else {
        let start = ms[k];
        let end = start + flen;
        let next = if k + 1 < ms.len() {
            ms[k + 1]
        } else {
            name.len() as int
        };
        seq![(name.subrange(start, end), true), (name.subrange(end, next), false)] + spans_from(
            name,
            flen,
            ms,
            k + 1,
        )
    }
}

/// How a name is cut up under a filter: a single unmatched span when
/// the filter is empty or never occurs; otherwise the unmatched prefix,
/// then match and gap spans, in order.
pub open spec fn highlight_spans_spec(name: Seq<char>, filter: Seq<char>) -> Seq<
    (Seq<char>, bool),
> {
    let ms = match_seq(lower(name), lower(filter), 0);
    if filter.len() == 0 || ms.len() == 0 {
        seq![(name, false)]
    } else {
        (if ms[0] > 0 {
            seq![(name.subrange(0, ms[0]), false)]
        } else {
            Seq::empty()
        }) + spans_from(name, filter.len() as int, ms, 0)
    }
}

/// Collects the non-overlapping match positions of the folded filter in
/// the folded name.
fn collect_matches(hay: &str, needle: &str) -> (r: Vec<usize>)
    requires
        needle@.len() >= 1,
    ensures
        r@.map_values(|u: usize| u as int) == match_seq(hay@, needle@, 0),
        forall|k: int| 0 <= k < r@.len() ==> match_at(hay@, needle@, #[trigger] r@[k] as int),
        forall|k: int|
            0 <= k < r@.len() - 1 ==> #[trigger] r@[k] + needle@.len() <= r@[k + 1],
{
    let flen = needle.unicode_len();
    let hlen = hay.unicode_len();
    let mut ms: Vec<usize> = Vec::new();
    let mut from: usize = 0;
    proof {
        assert(ms@.map_values(|u: usize| u as int) + match_seq(hay@, needle@, 0) =~= match_seq(
            hay@,
            needle@,
            0,
        ));
    }
    loop
        invariant
            flen == needle@.len(),
            hlen == hay@.len(),
            flen >= 1,
            from <= hlen + flen,
            match_seq(hay@, needle@, 0) == ms@.map_values(|u: usize| u as int) + match_seq(
                hay@,
                needle@,
                from as int,
            ),
            forall|k: int|
                0 <= k < ms@.len() ==> match_at(hay@, needle@, #[trigger] ms@[k] as int),
            forall|k: int|
                0 <= k < ms@.len() - 1 ==> #[trigger] ms@[k] + needle@.len() <= ms@[k + 1],
            ms@.len() > 0 ==> from == ms@[ms@.len() - 1] + flen,
        decreases hlen + flen - from,
    {
        let ghost done = ms@.map_values(|u: usize| u as int);
        match find_from(hay, needle, from) {
            Some(i) => {
                proof {
                    lemma_first_match_from_correct(hay@, needle@, from as int);
                }
                ms.push(i);
                proof {
                    assert(ms@.map_values(|u: usize| u as int) =~= done.push(i as int));
                    assert(match_seq(hay@, needle@, from as int) == seq![i as int] + match_seq(
                        hay@,
                        needle@,
                        i + flen,
                    ));
                    assert(done + (seq![i as int] + match_seq(hay@, needle@, i + flen))
                        =~= done.push(i as int) + match_seq(hay@, needle@, i + flen));
                }
                from = i + flen;
            },
            None => {
                proof {
                    assert(match_seq(hay@, needle@, from as int) =~= Seq::<int>::empty());
                    assert(done + Seq::<int>::empty() =~= done);
                }
                return ms;
            },
        }
    }
}

/// Cuts a name into spans under a filter: every occurrence of the
/// ASCII-folded filter in the ASCII-folded name becomes a marked span.
pub fn highlight_spans(name: &str, filter: &str) -> (r: Vec<HighlightSpan>)
    ensures
        span_views(r@) == highlight_spans_spec(name@, filter@),
{
    let nlen = name.unicode_len();
    let flen = filter.unicode_len();
    let ghost lh = lower(name@);
    let ghost lf = lower(filter@);
    proof {
        assert(lh.len() == name@.len());
        assert(lf.len() == filter@.len());
    }
    if flen == 0 {
        let mut out: Vec<HighlightSpan> = Vec::new();
        out.push(HighlightSpan { text: String::from_str(name), matched: false });
        proof {
            assert(span_views(out@) =~= seq![(name@, false)]);
        }
        return out;
    }
    let hay = lower_str(name);
    let needle = lower_str(filter);
    let ms = collect_matches(hay.as_str(), needle.as_str());
    let ghost msv = ms@.map_values(|u: usize| u as int);
    let mcount = ms.len();
    if mcount == 0 {
        let mut out: Vec<HighlightSpan> = Vec::new();
        out.push(HighlightSpan { text: String::from_str(name), matched: false });
        proof {
            assert(span_views(out@) =~= seq![(name@, false)]);
        }
        return out;
    }
    let mut out: Vec<HighlightSpan> = Vec::new();
    let first = ms[0];
    if first > 0 {
        let prefix = name.substring_char(0, first);
        out.push(HighlightSpan { text: String::from_str(prefix), matched: false });
    }
    let ghost head = span_views(out@);
    proof {
        if msv[0] > 0 {
            assert(head =~= seq![(name@.subrange(0, msv[0]), false)]);
        } else {
            assert(head =~= Seq::<(Seq<char>, bool)>::empty());
        }
    }
    let mut k: usize = 0;
    while k < mcount
        invariant
            nlen == name@.len(),
            flen == filter@.len(),
            flen >= 1,
            mcount == ms@.len(),
            msv == ms@.map_values(|u: usize| u as int),
            k <= mcount,
            forall|t: int| 0 <= t < msv.len() ==> match_at(lh, lf, #[trigger] msv[t]),
            forall|t: int| 0 <= t < msv.len() - 1 ==> #[trigger] msv[t] + flen <= msv[t + 1],
            lh.len() == name@.len(),
            lf.len() == filter@.len(),
            head == (if msv[0] > 0 {
                seq![(name@.subrange(0, msv[0]), false)]
            } else {
                Seq::<(Seq<char>, bool)>::empty()
            }),
            span_views(out@) == head + spans_from(name@, flen as int, msv, 0).take(
                2 * k as int,
            ),
        decreases mcount - k,
    {
        let start = ms[k];
        proof {
            assert(match_at(lh, lf, msv[k as int]));
        }
        let end = start + flen;
        let next: usize = if k + 1 < mcount {
            proof {
                assert(msv[k as int] + flen <= msv[k as int + 1]);
                assert(match_at(lh, lf, msv[k as int + 1]));
            }
            ms[k + 1]
        } else {
            nlen
        };
        let matched_text = name.substring_char(start, end);
        let gap_text = name.substring_char(end, next);
        let ghost done = span_views(out@);
        out.push(HighlightSpan { text: String::from_str(matched_text), matched: true });
        out.push(HighlightSpan { text: String::from_str(gap_text), matched: false });
        proof {
            let all = spans_from(name@, flen as int, msv, 0);
            lemma_spans_from_index(name@, flen as int, msv, 0, k as int);
            assert(span_views(out@) =~= done.push((name@.subrange(start as int, end as int), true)).push(
                (name@.subrange(end as int, next as int), false),
            ));
            assert(all.take(2 * (k + 1)) =~= all.take(2 * k as int).push(all[2 * k as int]).push(
                all[2 * k as int + 1],
            ));
        }
        k += 1;
    }
    proof {
        let all = spans_from(name@, flen as int, msv, 0);
        lemma_spans_from_len(name@, flen as int, msv, 0);
        assert(all.take(2 * mcount as int) =~= all);
        assert(span_views(out@) =~= highlight_spans_spec(name@, filter@));
    }
    out
}

/// The span list from position `k` has two spans per remaining match.
proof fn lemma_spans_from_len(name: Seq<char>, flen: int, ms: Seq<int>, k: int)
    requires
        0 <= k <= ms.len(),
    ensures
        spans_from(name, flen, ms, k).len() == 2 * (ms.len() - k),
    decreases ms.len() - k,
{
    if k < ms.len() {
        lemma_spans_from_len(name, flen, ms, k + 1);
    }
}

/// The two spans of the `t`-th match, as the whole span list shows
/// them.
proof fn lemma_spans_from_index(name: Seq<char>, flen: int, ms: Seq<int>, k: int, t: int)
    requires
        0 <= k <= t < ms.len(),
    ensures
        spans_from(name, flen, ms, k).len() == 2 * (ms.len() - k),
        spans_from(name, flen, ms, k)[2 * (t - k)] == (
            name.subrange(ms[t], ms[t] + flen),
            true,
        ),
        spans_from(name, flen, ms, k)[2 * (t - k) + 1] == (
            name.subrange(
                ms[t] + flen,
                if t + 1 < ms.len() {
                    ms[t + 1]
                } else {
                    name.len() as int
                },
            ),
            false,
        ),
    decreases ms.len() - k,
{
    lemma_spans_from_len(name, flen, ms, k);
    if k < t {
        lemma_spans_from_index(name, flen, ms, k + 1, t);
    }
}

impl Application {
    /// The application's name cut into spans under the given filter.
    pub fn get_highlighted_name(&self, filter: &str) -> (r: Vec<HighlightSpan>)
        ensures
            span_views(r@) == highlight_spans_spec(self.name@, filter@),
    {
        highlight_spans(self.name.as_str(), filter)
    }
}

} // verus!
