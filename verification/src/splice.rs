//! Cuts the TypeScript annotations out of a declaration's source: the
//! annotations are given as byte spans of the whole file, the source as
//! the bytes of the declaration's own span.

use vstd::prelude::*;

verus! {

/// `x` added to `s` (ordered by start, one span per start): placed by its
/// start, or dropped when `s` already has a span with that start.
pub open spec fn insert_span(s: Seq<(u32, u32)>, x: (u32, u32)) -> Seq<(u32, u32)>
    decreases s.len(),
{
    if s.len() == 0 {
        seq![x]
    } else if s[0].0 == x.0 {
        s
    } else if x.0 < s[0].0 {
        seq![x] + s
    } else {
        seq![s[0]] + insert_span(s.drop_first(), x)
    }
}

/// The spans that are cut, in order of their start: of the spans sharing a
/// start, the first given.
pub open spec fn kept(spans: Seq<(u32, u32)>) -> Seq<(u32, u32)>
    decreases spans.len(),
{
    if spans.len() == 0 {
        Seq::empty()
    } else {
        insert_span(kept(spans.drop_last()), spans.last())
    }
}

/// Walks the kept spans: the bytes kept so far and the position after the
/// last cut. A span starting before the snippet, or before the last cut
/// ended, is skipped; a cut ends at most at the end of the snippet.
pub open spec fn scan(src: Seq<u8>, base: int, ks: Seq<(u32, u32)>) -> (Seq<u8>, int)
    decreases ks.len(),
{
    if ks.len() == 0 {
        (Seq::empty(), 0)
    } else {
        let prev = scan(src, base, ks.drop_last());
        let lo = ks.last().0 as int;
        let hi = ks.last().1 as int;
        if lo < base || hi < base {
            prev
        } else {
            let rs = lo - base;
            let re = if hi - base < src.len() { hi - base } else { src.len() as int };
            if rs < prev.1 {
                prev
            } else {
                (prev.0 + src.subrange(prev.1, rs), re)
            }
        }
    }
}

/// The snippet with the spans cut out.
pub open spec fn spliced(src: Seq<u8>, base: int, spans: Seq<(u32, u32)>) -> Seq<u8> {
    let s = scan(src, base, kept(spans));
    if s.1 < src.len() {
        s.0 + src.subrange(s.1, src.len() as int)
    } else {
        s.0
    }
}

/// Every cut that is made starts inside the snippet (or at its end).
pub open spec fn cuts_in_snippet(len: int, base: int, spans: Seq<(u32, u32)>) -> bool {
    forall|k: int| 0 <= k < kept(spans).len() ==> {
        let lo = #[trigger] kept(spans)[k].0 as int;
        let hi = kept(spans)[k].1 as int;
        (lo >= base && hi >= base) ==> lo - base <= len
    }
}

pub open spec fn sorted_by_start(s: Seq<(u32, u32)>) -> bool {
    forall|i: int, j: int| 0 <= i < j < s.len() ==> s[i].0 < s[j].0
}

proof fn lemma_insert_sorted(s: Seq<(u32, u32)>, x: (u32, u32), i: int)
    requires
        sorted_by_start(s),
        0 <= i <= s.len(),
        forall|k: int| 0 <= k < i ==> s[k].0 < x.0,
        i < s.len() ==> s[i].0 >= x.0,
    ensures
        insert_span(s, x) == if i < s.len() && s[i].0 == x.0 {
            s
        } else {
            s.take(i) + seq![x] + s.skip(i)
        },
        sorted_by_start(insert_span(s, x)),
    decreases s.len(),
{
    if s.len() == 0 {
        assert(s.take(i) + seq![x] + s.skip(i) =~= seq![x]);
    } else if i == 0 {
        if s[0].0 == x.0 {
        } else {
            assert(s.take(0) + seq![x] + s.skip(0) =~= seq![x] + s);
        }
    } else {
        let t = s.drop_first();
        assert forall|k: int| 0 <= k < i - 1 implies t[k].0 < x.0 by {
            assert(t[k] == s[k + 1]);
        }
        lemma_insert_sorted(t, x, i - 1);
        if i < s.len() && s[i].0 == x.0 {
            assert(seq![s[0]] + t =~= s);
        } else {
            assert(seq![s[0]] + (t.take(i - 1) + seq![x] + t.skip(i - 1)) =~= s.take(i) + seq![x] + s.skip(i));
        }
        let r = insert_span(s, x);
        assert forall|a: int, b: int| 0 <= a < b < r.len() implies r[a].0 < r[b].0 by {
            if a == 0 {
                let it = insert_span(t, x);
                assert(r == seq![s[0]] + it);
                assert(it[b - 1] == r[b]);
                if i < s.len() && s[i].0 == x.0 {
                    assert(it == t);
                    assert(t[b - 1] == s[b]);
                } else {
                    assert(it =~= t.take(i - 1) + seq![x] + t.skip(i - 1));
                    if b - 1 < i - 1 {
                        assert(it[b - 1] == t[b - 1]);
                        assert(t[b - 1] == s[b]);
                    } else if b - 1 == i - 1 {
                        assert(it[b - 1] == x);
                    } else {
                        assert(it[b - 1] == t[b - 2]);
                        assert(t[b - 2] == s[b - 1]);
                    }
                }
            } else {
                assert(r[a] == insert_span(t, x)[a - 1]);
                assert(r[b] == insert_span(t, x)[b - 1]);
            }
        }
    }
}

proof fn lemma_kept_sorted(spans: Seq<(u32, u32)>)
    ensures
        sorted_by_start(kept(spans)),
    decreases spans.len(),
{
    if spans.len() > 0 {
        let s = kept(spans.drop_last());
        lemma_kept_sorted(spans.drop_last());
        let x = spans.last();
        lemma_first_not_below(s, x.0);
        let i = first_not_below(s, x.0);
        lemma_insert_sorted(s, x, i);
    }
}

/// The first position of `s` whose start is not below `lo` (its length when
/// none).
spec fn first_not_below(s: Seq<(u32, u32)>, lo: u32) -> int
    decreases s.len(),
{
    if s.len() == 0 {
        0
    } else if s[0].0 >= lo {
        0
    } else {
        1 + first_not_below(s.drop_first(), lo)
    }
}

proof fn lemma_first_not_below(s: Seq<(u32, u32)>, lo: u32)
    requires
        sorted_by_start(s),
    ensures
        0 <= first_not_below(s, lo) <= s.len(),
        forall|k: int| 0 <= k < first_not_below(s, lo) ==> s[k].0 < lo,
        first_not_below(s, lo) < s.len() ==> s[first_not_below(s, lo)].0 >= lo,
    decreases s.len(),
{
    if s.len() > 0 && s[0].0 < lo {
        let t = s.drop_first();
        assert(sorted_by_start(t)) by {
            assert forall|i: int, j: int| 0 <= i < j < t.len() implies t[i].0 < t[j].0 by {
                assert(t[i] == s[i + 1] && t[j] == s[j + 1]);
            }
        }
        lemma_first_not_below(t, lo);
        assert forall|k: int| 0 <= k < first_not_below(s, lo) implies s[k].0 < lo by {
            if k > 0 {
                assert(s[k] == t[k - 1]);
            }
        }
        if first_not_below(s, lo) < s.len() {
            assert(s[first_not_below(s, lo)] == t[first_not_below(t, lo)]);
        }
    }
}

/// Adds `x` to the ordered, one-per-start list `v` (see [`insert_span`]).
fn insert_kept(v: &mut Vec<(u32, u32)>, x: (u32, u32))
    requires
        sorted_by_start(old(v)@),
    ensures
        final(v)@ == insert_span(old(v)@, x),
        sorted_by_start(final(v)@),
{
    let ghost s = v@;
    let mut i: usize = 0;
    while i < v.len() && v[i].0 < x.0
        invariant
            v@ == s,
            i <= v@.len(),
            forall|k: int| 0 <= k < i ==> s[k].0 < x.0,
        decreases v.len() - i,
    {
        i += 1;
    }
    proof {
        lemma_insert_sorted(s, x, i as int);
    }
    if i < v.len() && v[i].0 == x.0 {
        return;
    }
    v.insert(i, x);
    assert(v@ =~= s.take(i as int) + seq![x] + s.skip(i as int));
}

/// The spans to cut, in order (see [`kept`]).
fn kept_spans(spans: &Vec<(u32, u32)>) -> (r: Vec<(u32, u32)>)
    ensures
        r@ == kept(spans@),
{
    let mut r: Vec<(u32, u32)> = Vec::new();
    let mut i: usize = 0;
    assert(spans@.take(0) =~= Seq::<(u32, u32)>::empty());
    while i < spans.len()
        invariant
            i <= spans@.len(),
            r@ == kept(spans@.take(i as int)),
        decreases spans.len() - i,
    {
        proof {
            lemma_kept_sorted(spans@.take(i as int));
        }
        assert(spans@.take(i + 1).drop_last() =~= spans@.take(i as int));
        assert(spans@.take(i + 1).last() == spans@[i as int]);
        insert_kept(&mut r, spans[i]);
        i += 1;
    }
    assert(spans@.take(spans@.len() as int) =~= spans@);
    r
}

fn push_range(out: &mut Vec<u8>, src: &Vec<u8>, from: usize, to: usize)
    requires
        from <= to <= src@.len(),
    ensures
        final(out)@ == old(out)@ + src@.subrange(from as int, to as int),
{
    let ghost start = out@;
    let mut i = from;
    while i < to
        invariant
            from <= i <= to <= src@.len(),
            out@ == start + src@.subrange(from as int, i as int),
        decreases to - i,
    {
        out.push(src[i]);
        assert(src@.subrange(from as int, i + 1) =~= src@.subrange(from as int, i as int).push(src@[i as int]));
        i += 1;
    }
}

/// The declaration source `src` (the bytes of the span starting at `base`)
/// with the annotation spans cut out (see [`spliced`]).
pub fn splice_out_spans(src: &Vec<u8>, base: u32, spans: &Vec<(u32, u32)>) -> (r: Vec<u8>)
    requires
        cuts_in_snippet(src@.len() as int, base as int, spans@),
    ensures
        r@ == spliced(src@, base as int, spans@),
{
    let ks = kept_spans(spans);
    let mut out: Vec<u8> = Vec::new();
    let mut cursor: usize = 0;
    let mut i: usize = 0;
    assert(ks@.take(0) =~= Seq::<(u32, u32)>::empty());
    while i < ks.len()
        invariant
            ks@ == kept(spans@),
            cuts_in_snippet(src@.len() as int, base as int, spans@),
            i <= ks@.len(),
            cursor <= src@.len(),
            (out@, cursor as int) == scan(src@, base as int, ks@.take(i as int)),
        decreases ks.len() - i,
    {
        assert(ks@.take(i + 1).drop_last() =~= ks@.take(i as int));
        assert(ks@.take(i + 1).last() == ks@[i as int]);
        let (lo, hi) = ks[i];
        if lo >= base && hi >= base {
            let rs = (lo - base) as usize;
            assert(rs <= src@.len()) by {
                assert(kept(spans@)[i as int] == ks@[i as int]);
            }
            let d = (hi - base) as usize;
            let re = if d < src.len() { d } else { src.len() };
            if rs >= cursor {
                push_range(&mut out, src, cursor, rs);
                cursor = re;
            }
        }
        i += 1;
    }
    assert(ks@.take(ks@.len() as int) =~= ks@);
    if cursor < src.len() {
        push_range(&mut out, src, cursor, src.len());
    }
    out
}

/// With no span to cut, the source is kept as it is.
pub proof fn law_no_spans_keeps_source(src: Seq<u8>, base: int)
    ensures
        spliced(src, base, Seq::empty()) == src,
{
    assert(src.subrange(0, src.len() as int) =~= src);
    assert(Seq::<u8>::empty() + src =~= src);
}

/// The spans are cut in order of their start, one per start.
pub proof fn law_cuts_ordered(spans: Seq<(u32, u32)>)
    ensures
        sorted_by_start(kept(spans)),
{
    lemma_kept_sorted(spans);
}

} // verus!
