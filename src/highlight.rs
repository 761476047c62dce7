use vstd::prelude::*;
use crate::text::{chars_of, string_of_range};

verus! {

/// A contiguous piece of a log, tagged as a marker occurrence or plain text.
pub struct HighlightSpan {
    pub text: String,
    pub highlighted: bool,
}

impl View for HighlightSpan {
    type V = (Seq<char>, bool);

    open spec fn view(&self) -> (Seq<char>, bool) {
        (self.text@, self.highlighted)
    }
}

/// The views of a list of spans.
pub open spec fn spans_view(v: Seq<HighlightSpan>) -> Seq<(Seq<char>, bool)> {
    v.map_values(|x: HighlightSpan| x@)
}

/// `m` occurs in `t` at index `p`.
pub open spec fn occurs_at(t: Seq<char>, m: Seq<char>, p: int) -> bool {
    0 <= p && p + m.len() <= t.len() && t.subrange(p, p + m.len()) == m
}

/// The first index at or after `i` where `m` occurs in `t`, or -1.
pub open spec fn next_match(t: Seq<char>, m: Seq<char>, i: int) -> int
    decreases t.len() - i,
{
    if i < 0 || i + m.len() > t.len() {
        -1
    } else if occurs_at(t, m, i) {
        i
    } else if i < t.len() {
        next_match(t, m, i + 1)
    } else {
        -1
    }
}

/// The spans of `t[i..]` for a non-empty marker `m`: plain text before each
/// occurrence (left out when empty), the occurrence highlighted, the scan
/// resuming after it; then the rest, plain, when not empty.
pub open spec fn spans_from(t: Seq<char>, m: Seq<char>, i: int) -> Seq<(Seq<char>, bool)>
    decreases t.len() - i,
{
    let p = next_match(t, m, i);
    if i < 0 || i > t.len() || m.len() == 0 || p < i || p + m.len() > t.len() {
        if 0 <= i < t.len() {
            seq![(t.subrange(i, t.len() as int), false)]
        } else {
            Seq::empty()
        }
    } else {
        let before: Seq<(Seq<char>, bool)> = if p > i {
            seq![(t.subrange(i, p), false)]
        } else {
            Seq::empty()
        };
        before + seq![(m, true)] + spans_from(t, m, p + m.len())
    }
}

/// The spans in which `t` is shown with marker `m`: the whole text as one plain
/// span when `m` is empty, else the non-overlapping left-to-right occurrences.
pub open spec fn highlighted(t: Seq<char>, m: Seq<char>) -> Seq<(Seq<char>, bool)> {
    if m.len() == 0 {
        seq![(t, false)]
    } else {
        spans_from(t, m, 0)
    }
}

/// The texts of `spans`, joined in order.
pub open spec fn joined(spans: Seq<(Seq<char>, bool)>) -> Seq<char>
    decreases spans.len(),
{
    if spans.len() == 0 {
        Seq::empty()
    } else {
        spans[0].0 + joined(spans.skip(1))
    }
}

proof fn lemma_next_match(t: Seq<char>, m: Seq<char>, i: int)
    requires
        0 <= i,
    ensures
        next_match(t, m, i) == -1 || (i <= next_match(t, m, i) && occurs_at(
            t,
            m,
            next_match(t, m, i),
        )),
        next_match(t, m, i) == -1 ==> forall|k: int| i <= k ==> !#[trigger] occurs_at(t, m, k),
    decreases t.len() - i,
{
    if m.len() == 0 && i <= t.len() {
        assert(t.subrange(i, i) =~= m);
    }
    if i + m.len() <= t.len() && !occurs_at(t, m, i) {
        lemma_next_match(t, m, i + 1);
    }
}

proof fn lemma_joined_concat(a: Seq<(Seq<char>, bool)>, b: Seq<(Seq<char>, bool)>)
    ensures
        joined(a + b) == joined(a) + joined(b),
    decreases a.len(),
{
    if a.len() == 0 {
        assert(a + b =~= b);
        assert(joined(a) + joined(b) =~= joined(b));
    } else {
        lemma_joined_concat(a.skip(1), b);
        assert((a + b).skip(1) =~= a.skip(1) + b);
        assert(joined(a + b) =~= a[0].0 + (joined(a.skip(1)) + joined(b)));
    }
}

proof fn lemma_joined_one(x: (Seq<char>, bool))
    ensures
        joined(seq![x]) == x.0,
{
    reveal_with_fuel(joined, 2);
    assert(seq![x].skip(1) =~= Seq::<(Seq<char>, bool)>::empty());
    assert(x.0 + Seq::<char>::empty() =~= x.0);
}

proof fn lemma_spans_from_cover(t: Seq<char>, m: Seq<char>, i: int)
    requires
        0 <= i <= t.len(),
        m.len() > 0,
    ensures
        joined(spans_from(t, m, i)) == t.subrange(i, t.len() as int),
    decreases t.len() - i,
{
    let p = next_match(t, m, i);
    lemma_next_match(t, m, i);
    if p < i {
        if i < t.len() {
            lemma_joined_one((t.subrange(i, t.len() as int), false));
        } else {
            assert(t.subrange(i, t.len() as int) =~= Seq::<char>::empty());
        }
    } else {
        let before: Seq<(Seq<char>, bool)> = if p > i {
            seq![(t.subrange(i, p), false)]
        } else {
            Seq::empty()
        };
        let rest = spans_from(t, m, p + m.len());
        lemma_spans_from_cover(t, m, p + m.len());
        lemma_joined_concat(before + seq![(m, true)], rest);
        lemma_joined_concat(before, seq![(m, true)]);
        lemma_joined_one((m, true));
        if p > i {
            lemma_joined_one((t.subrange(i, p), false));
        }
        assert(joined(before) =~= t.subrange(i, p));
        assert(t.subrange(i, t.len() as int) =~= t.subrange(i, p) + m + t.subrange(
            p + m.len(),
            t.len() as int,
        ));
    }
}

/// Joining the texts of the spans in order gives back the whole text, for every
/// text and marker.
pub proof fn lemma_highlight_covers(t: Seq<char>, m: Seq<char>)
    ensures
        joined(highlighted(t, m)) == t,
{
    if m.len() == 0 {
        lemma_joined_one((t, false));
    } else {
        lemma_spans_from_cover(t, m, 0);
        assert(t.subrange(0, t.len() as int) =~= t);
    }
}

/// Whether `m` occurs in `t` at index `p`.
fn matches_at(t: &Vec<char>, m: &Vec<char>, p: usize) -> (r: bool)
    requires
        p + m@.len() <= t@.len(),
    ensures
        r == occurs_at(t@, m@, p as int),
{
    let tlen = t.len();
    let mut j: usize = 0;
    while j < m.len()
        invariant
            tlen == t@.len(),
            j <= m@.len(),
            p + m@.len() <= t@.len(),
            forall|k: int| 0 <= k < j ==> t@[p + k] == m@[k],
        decreases m@.len() - j,
    {
        if t[p + j] != m[j] {
            assert(t@.subrange(p as int, p + m@.len())[j as int] != m@[j as int]);
            return false;
        }
        j = j + 1;
    }
    assert(t@.subrange(p as int, p + m@.len()) =~= m@);
    true
}

/// The first index at or after `from` where `m` occurs in `t`.
fn find_from(t: &Vec<char>, m: &Vec<char>, from: usize) -> (r: Option<usize>)
    requires
        from <= t@.len(),
        m@.len() > 0,
    ensures
        r matches Some(p) ==> p == next_match(t@, m@, from as int),
        r is None ==> next_match(t@, m@, from as int) == -1,
{
    if m.len() > t.len() {
        return None;
    }
    let tlen = t.len();
    let last = tlen - m.len();
    let mut k: usize = from;
    while k <= last
        invariant
            tlen == t@.len(),
            from <= k,
            m@.len() > 0,
            last + m@.len() == t@.len(),
            next_match(t@, m@, from as int) == next_match(t@, m@, k as int),
        decreases last + 1 - k,
    {
        if matches_at(t, m, k) {
            return Some(k);
        }
        k = k + 1;
    }
    None
}

/// Splits `text` into plain and highlighted spans for `marker`: one plain span
/// holding all of `text` when `marker` is empty; otherwise each non-overlapping
/// occurrence, found left to right, is a highlighted span, and the text between
/// occurrences forms plain spans, empty ones left out.
pub fn highlight(text: &str, marker: &str) -> (r: Vec<HighlightSpan>)
    ensures
        spans_view(r@) == highlighted(text@, marker@),
        marker@.len() == 0 ==> spans_view(r@) == seq![(text@, false)],
{
    let mut out: Vec<HighlightSpan> = Vec::new();
    if marker.is_empty() {
        out.push(HighlightSpan { text: text.to_owned(), highlighted: false });
        assert(spans_view(out@) =~= seq![(text@, false)]);
        return out;
    }
    let t = chars_of(text);
    let m = chars_of(marker);
    let tlen = t.len();
    let mut start: usize = 0;
    loop
        invariant
            tlen == t@.len(),
            t@ == text@,
            m@ == marker@,
            m@.len() > 0,
            start <= t@.len(),
            spans_view(out@) + spans_from(t@, m@, start as int) == spans_from(t@, m@, 0),
        decreases t@.len() - start,
    {
        proof {
            lemma_next_match(t@, m@, start as int);
        }
        let ghost before = spans_view(out@);
        match find_from(&t, &m, start) {
            Some(p) => {
                if p > start {
                    out.push(HighlightSpan { text: string_of_range(&t, start, p), highlighted: false });
                }
                out.push(HighlightSpan { text: marker.to_owned(), highlighted: true });
                let ghost b: Seq<(Seq<char>, bool)> = if p > start {
                    seq![(t@.subrange(start as int, p as int), false)]
                } else {
                    Seq::empty()
                };
                assert(spans_view(out@) =~= before + b + seq![(m@, true)]);
                assert(spans_from(t@, m@, start as int) == b + seq![(m@, true)] + spans_from(t@, m@, p + m@.len()));
                assert(spans_view(out@) + spans_from(t@, m@, p + m@.len()) =~= before + spans_from(t@, m@, start as int));
                start = p + m.len();
            },
            None => {
                if start < t.len() {
                    out.push(HighlightSpan { text: string_of_range(&t, start, t.len()), highlighted: false });
                }
                assert(spans_view(out@) =~= before + spans_from(t@, m@, start as int));
                assert(spans_view(out@) =~= spans_from(t@, m@, 0));
                return out;
            },
        }
    }
}

} // verus!
