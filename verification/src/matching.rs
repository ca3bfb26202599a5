//! Font matching among the faces of one family, following CSS Fonts Level 3 § 5.2
//! (<https://drafts.csswg.org/css-fonts-3/#font-style-matching>): narrow the candidates first
//! by stretchiness, then by style, then by weight, and take the first face that remains.

use vstd::prelude::*;
use crate::properties::{Properties, Style, Weight, Stretch};

verus! {

/// Which candidates are still in the matching set: those with the given stretchiness (when
/// one is given) and the given style (when one is given).
#[derive(Clone, Copy)]
pub struct MatchFilter {
    pub stretch: Option<u32>,
    pub style: Option<Style>,
}

/// Whether `p` passes the filter `f`.
pub open spec fn kept(f: MatchFilter, p: Properties) -> bool {
    &&& (f.stretch matches Some(s) ==> p.stretch.0 == s)
    &&& (f.style matches Some(st) ==> p.style == st)
}

/// The property that a step of the algorithm looks at: the weight when `by_weight`, the
/// stretchiness otherwise.
pub open spec fn key_of(by_weight: bool, p: Properties) -> u32 {
    if by_weight {
        p.weight.0
    } else {
        p.stretch.0
    }
}

/// Some kept candidate among the first `n` has key `v`.
pub open spec fn present(c: Seq<Properties>, n: int, f: MatchFilter, w: bool, v: u32) -> bool {
    exists|i: int| 0 <= i < n && kept(f, #[trigger] c[i]) && key_of(w, c[i]) == v
}

/// Some kept candidate among the first `n` exists.
pub open spec fn any_kept(c: Seq<Properties>, n: int, f: MatchFilter) -> bool {
    exists|i: int| 0 <= i < n && kept(f, #[trigger] c[i])
}

/// Some kept candidate among the first `n` has the style `st`.
pub open spec fn style_present(c: Seq<Properties>, n: int, f: MatchFilter, st: Style) -> bool {
    exists|i: int| 0 <= i < n && kept(f, #[trigger] c[i]) && c[i].style == st
}

/// The largest key below `v` among the kept candidates of the first `n`, if any.
pub open spec fn max_below(c: Seq<Properties>, n: int, f: MatchFilter, w: bool, v: u32) -> Option<
    u32,
>
    decreases n,
{
    if n <= 0 {
        None
    } else {
        let rest = max_below(c, n - 1, f, w, v);
        let p = c[n - 1];
        if kept(f, p) && key_of(w, p) < v {
            match rest {
                Some(m) => if key_of(w, p) > m {
                    Some(key_of(w, p))
                } else {
                    Some(m)
                },
                None => Some(key_of(w, p)),
            }
        } else {
            rest
        }
    }
}

/// The smallest key above `v` among the kept candidates of the first `n`, if any.
pub open spec fn min_above(c: Seq<Properties>, n: int, f: MatchFilter, w: bool, v: u32) -> Option<
    u32,
>
    decreases n,
{
    if n <= 0 {
        None
    } else {
        let rest = min_above(c, n - 1, f, w, v);
        let p = c[n - 1];
        if kept(f, p) && key_of(w, p) > v {
            match rest {
                Some(m) => if key_of(w, p) < m {
                    Some(key_of(w, p))
                } else {
                    Some(m)
                },
                None => Some(key_of(w, p)),
            }
        } else {
            rest
        }
    }
}

/// The key value that the search settles on when looking for `v` among the kept candidates:
/// `v` itself if some candidate has it; otherwise, when `narrower_first`, the closest value
/// below `v` and failing that the closest above; otherwise the closest above and failing that
/// the closest below.
pub open spec fn closest(c: Seq<Properties>, f: MatchFilter, w: bool, v: u32, narrower_first: bool) -> u32 {
    let n = c.len() as int;
    if present(c, n, f, w, v) {
        v
    } else if narrower_first {
        match max_below(c, n, f, w, v) {
            Some(m) => m,
            None => match min_above(c, n, f, w, v) {
                Some(m) => m,
                None => v,
            },
        }
    } else {
        match min_above(c, n, f, w, v) {
            Some(m) => m,
            None => match max_below(c, n, f, w, v) {
                Some(m) => m,
                None => v,
            },
        }
    }
}

/// The filter that keeps every candidate.
pub open spec fn no_filter() -> MatchFilter {
    MatchFilter { stretch: None, style: None }
}

/// Step 4a: the stretchiness chosen for `query`. Normal and condensed queries look at narrower
/// widths first, expanded queries at wider widths first.
pub open spec fn matching_stretch(c: Seq<Properties>, query: Properties) -> u32 {
    closest(c, no_filter(), false, query.stretch.0, query.stretch.0 <= 1000)
}

/// The order in which styles are tried for a query of style `st`.
pub open spec fn style_preference(st: Style) -> Seq<Style> {
    match st {
        Style::Italic => seq![Style::Italic, Style::Oblique, Style::Normal],
        Style::Oblique => seq![Style::Oblique, Style::Italic, Style::Normal],
        Style::Normal => seq![Style::Normal, Style::Oblique, Style::Italic],
    }
}

/// Step 4b: the first style of the preference order that some candidate of stretchiness `ms`
/// has.
pub open spec fn matching_style(c: Seq<Properties>, query: Properties, ms: u32) -> Style {
    let f = MatchFilter { stretch: Some(ms), style: None };
    let pref = style_preference(query.style);
    let n = c.len() as int;
    if style_present(c, n, f, pref[0]) {
        pref[0]
    } else if style_present(c, n, f, pref[1]) {
        pref[1]
    } else {
        pref[2]
    }
}

/// Step 4c: the weight chosen among the candidates of stretchiness `ms` and style `st`. The
/// weight asked for wins if present; a query from 400 up to (not including) 450 tries 500
/// next, one from 450 up to 500 tries 400 next; then queries up to 500 look at lighter weights
/// first and heavier ones after, and heavier queries the other way round.
pub open spec fn matching_weight(c: Seq<Properties>, query: Properties, ms: u32, st: Style) -> u32 {
    let f = MatchFilter { stretch: Some(ms), style: Some(st) };
    let n = c.len() as int;
    let q = query.weight.0;
    if present(c, n, f, true, q) {
        q
    } else if 400 <= q < 450 && present(c, n, f, true, 500) {
        500
    } else if 450 <= q <= 500 && present(c, n, f, true, 400) {
        400
    } else {
        closest(c, f, true, q, q <= 500)
    }
}

/// Whether candidate `p` survives all three steps for `query`.
pub open spec fn survives(c: Seq<Properties>, query: Properties, p: Properties) -> bool {
    let ms = matching_stretch(c, query);
    let st = matching_style(c, query, ms);
    let mw = matching_weight(c, query, ms, st);
    p.stretch.0 == ms && p.style == st && p.weight.0 == mw
}

/// `i` is the index of the best match for `query`: the first candidate that survives all
/// three steps.
pub open spec fn is_best_match(c: Seq<Properties>, query: Properties, i: int) -> bool {
    &&& 0 <= i < c.len()
    &&& survives(c, query, c[i])
    &&& forall|j: int| 0 <= j < i ==> !survives(c, query, #[trigger] c[j])
}


/// When some candidate has exactly the queried style, weight and stretchiness, matching picks
/// such a candidate: every face that survives the three steps equals the query.
pub proof fn lemma_exact_match_is_chosen(c: Seq<Properties>, query: Properties, k: int)
    requires
        0 <= k < c.len(),
        c[k] == query,
    ensures
        matching_stretch(c, query) == query.stretch.0,
        forall|i: int| is_best_match(c, query, i) ==> c[i] == query,
{
    let n = c.len() as int;
    assert(kept(no_filter(), c[k]) && key_of(false, c[k]) == query.stretch.0);
    assert(present(c, n, no_filter(), false, query.stretch.0));
    let ms = matching_stretch(c, query);
    let f2 = MatchFilter { stretch: Some(ms), style: None };
    assert(kept(f2, c[k]));
    assert(style_present(c, n, f2, query.style));
    let st = matching_style(c, query, ms);
    assert(st == query.style);
    let f3 = MatchFilter { stretch: Some(ms), style: Some(st) };
    assert(kept(f3, c[k]) && key_of(true, c[k]) == query.weight.0);
    assert(present(c, n, f3, true, query.weight.0));
    assert forall|i: int| is_best_match(c, query, i) implies c[i] == query by {
        assert(survives(c, query, c[i]));
    }
}

proof fn lemma_max_below(c: Seq<Properties>, n: int, f: MatchFilter, w: bool, v: u32)
    requires
        0 <= n <= c.len(),
    ensures
        max_below(c, n, f, w, v) matches Some(m) ==> (m < v && present(c, n, f, w, m) && forall|
            i: int,
        |
            0 <= i < n && kept(f, #[trigger] c[i]) && key_of(w, c[i]) < v ==> key_of(w, c[i])
                <= m),
        max_below(c, n, f, w, v) is None ==> forall|i: int|
            0 <= i < n && kept(f, #[trigger] c[i]) ==> key_of(w, c[i]) >= v,
    decreases n,
{
    if n > 0 {
        lemma_max_below(c, n - 1, f, w, v);
        if let Some(m) = max_below(c, n, f, w, v) {
            if max_below(c, n - 1, f, w, v) == Some(m) {
                let k = choose|i: int| 0 <= i < n - 1 && kept(f, #[trigger] c[i]) && key_of(w, c[i]) == m;
                assert(0 <= k < n && kept(f, c[k]) && key_of(w, c[k]) == m);
            } else {
                assert(kept(f, c[n - 1]) && key_of(w, c[n - 1]) == m);
            }
        }
    }
}

proof fn lemma_min_above(c: Seq<Properties>, n: int, f: MatchFilter, w: bool, v: u32)
    requires
        0 <= n <= c.len(),
    ensures
        min_above(c, n, f, w, v) matches Some(m) ==> (m > v && present(c, n, f, w, m) && forall|
            i: int,
        |
            0 <= i < n && kept(f, #[trigger] c[i]) && key_of(w, c[i]) > v ==> key_of(w, c[i])
                >= m),
        min_above(c, n, f, w, v) is None ==> forall|i: int|
            0 <= i < n && kept(f, #[trigger] c[i]) ==> key_of(w, c[i]) <= v,
    decreases n,
{
    if n > 0 {
        lemma_min_above(c, n - 1, f, w, v);
        if let Some(m) = min_above(c, n, f, w, v) {
            if min_above(c, n - 1, f, w, v) == Some(m) {
                let k = choose|i: int| 0 <= i < n - 1 && kept(f, #[trigger] c[i]) && key_of(w, c[i]) == m;
                assert(0 <= k < n && kept(f, c[k]) && key_of(w, c[k]) == m);
            } else {
                assert(kept(f, c[n - 1]) && key_of(w, c[n - 1]) == m);
            }
        }
    }
}

/// When some candidate is kept, the value `closest` settles on is the key of a kept candidate.
proof fn lemma_closest_present(c: Seq<Properties>, f: MatchFilter, w: bool, v: u32, nf: bool)
    requires
        any_kept(c, c.len() as int, f),
    ensures
        present(c, c.len() as int, f, w, closest(c, f, w, v, nf)),
{
    let n = c.len() as int;
    lemma_max_below(c, n, f, w, v);
    lemma_min_above(c, n, f, w, v);
    let k = choose|i: int| 0 <= i < n && kept(f, #[trigger] c[i]);
    if !present(c, n, f, w, v) {
        assert(key_of(w, c[k]) != v);
    }
}

/// How a step of the matching settles on a value among the kept candidates: the value asked for
/// when some candidate has it; otherwise, looking first in the preferred direction (lower
/// values when `narrower_first`), the nearest value there, and failing that the nearest value
/// in the other direction. The value settled on is that of some kept candidate.
pub proof fn lemma_closest_choice(c: Seq<Properties>, f: MatchFilter, w: bool, v: u32, narrower_first: bool)
    requires
        any_kept(c, c.len() as int, f),
    ensures
        ({
            let n = c.len() as int;
            let m = closest(c, f, w, v, narrower_first);
            let below = exists|i: int| 0 <= i < n && kept(f, #[trigger] c[i]) && key_of(w, c[i]) < v;
            let above = exists|i: int| 0 <= i < n && kept(f, #[trigger] c[i]) && key_of(w, c[i]) > v;
            &&& present(c, n, f, w, m)
            &&& present(c, n, f, w, v) ==> m == v
            &&& !present(c, n, f, w, v) && (if narrower_first { below } else { !above }) ==> {
                &&& m < v
                &&& forall|i: int| 0 <= i < n && kept(f, #[trigger] c[i]) && key_of(w, c[i]) < v ==> key_of(w, c[i]) <= m
            }
            &&& !present(c, n, f, w, v) && (if narrower_first { !below } else { above }) ==> {
                &&& m > v
                &&& forall|i: int| 0 <= i < n && kept(f, #[trigger] c[i]) && key_of(w, c[i]) > v ==> key_of(w, c[i]) >= m
            }
        }),
{
    let n = c.len() as int;
    lemma_max_below(c, n, f, w, v);
    lemma_min_above(c, n, f, w, v);
    lemma_closest_present(c, f, w, v, narrower_first);
    let k = choose|i: int| 0 <= i < n && kept(f, #[trigger] c[i]);
    if !present(c, n, f, w, v) {
        assert(key_of(w, c[k]) != v);
    }
}

/// Step 4a of the matching, for a family with faces: the stretchiness chosen is the one asked
/// for when some face has it; otherwise, for a normal or condensed query, the widest
/// stretchiness narrower than the query if any face is narrower, else the narrowest one; for an
/// expanded query, the narrowest stretchiness wider than the query if any face is wider, else
/// the widest one. Some face has the stretchiness chosen.
pub proof fn lemma_stretch_choice(c: Seq<Properties>, query: Properties)
    requires
        c.len() > 0,
    ensures
        ({
            let n = c.len() as int;
            let q = query.stretch.0;
            let ms = matching_stretch(c, query);
            let exact = exists|i: int| 0 <= i < n && (#[trigger] c[i]).stretch.0 == q;
            let narrower = exists|i: int| 0 <= i < n && (#[trigger] c[i]).stretch.0 < q;
            let wider = exists|i: int| 0 <= i < n && (#[trigger] c[i]).stretch.0 > q;
            &&& exists|i: int| 0 <= i < n && (#[trigger] c[i]).stretch.0 == ms
            &&& exact ==> ms == q
            &&& !exact && q <= 1000 && narrower ==> ms < q && forall|i: int|
                0 <= i < n && (#[trigger] c[i]).stretch.0 < q ==> c[i].stretch.0 <= ms
            &&& !exact && q <= 1000 && !narrower ==> ms > q && forall|i: int|
                0 <= i < n ==> (#[trigger] c[i]).stretch.0 >= ms
            &&& !exact && q > 1000 && wider ==> ms > q && forall|i: int|
                0 <= i < n && (#[trigger] c[i]).stretch.0 > q ==> c[i].stretch.0 >= ms
            &&& !exact && q > 1000 && !wider ==> ms < q && forall|i: int|
                0 <= i < n ==> (#[trigger] c[i]).stretch.0 <= ms
        }),
{
    let n = c.len() as int;
    let f = no_filter();
    assert(kept(f, c[0]));
    lemma_closest_choice(c, f, false, query.stretch.0, query.stretch.0 <= 1000);
}

/// Step 4c of the matching, for a family with faces, among the faces that steps 4a and 4b
/// kept: the weight chosen is the one asked for when some of them has it; otherwise 500 for a
/// query from 400 up to 450 and 400 for a query from 450 up to 500, when some of them has that
/// weight; otherwise, for a query up to 500, the heaviest weight lighter than the query if any
/// is lighter, else the lightest one; for a heavier query, the lightest weight heavier than the
/// query if any is heavier, else the heaviest one. One of them has the weight chosen.
pub proof fn lemma_weight_choice(c: Seq<Properties>, query: Properties)
    requires
        c.len() > 0,
    ensures
        ({
            let n = c.len() as int;
            let ms = matching_stretch(c, query);
            let st = matching_style(c, query, ms);
            let f = MatchFilter { stretch: Some(ms), style: Some(st) };
            let q = query.weight.0;
            let mw = matching_weight(c, query, ms, st);
            let lighter = exists|i: int| 0 <= i < n && kept(f, #[trigger] c[i]) && c[i].weight.0 < q;
            let heavier = exists|i: int| 0 <= i < n && kept(f, #[trigger] c[i]) && c[i].weight.0 > q;
            let special = (400 <= q < 450 && present(c, n, f, true, 500)) || (450 <= q <= 500 && present(c, n, f, true, 400));
            &&& present(c, n, f, true, mw)
            &&& present(c, n, f, true, q) ==> mw == q
            &&& !present(c, n, f, true, q) && 400 <= q < 450 && present(c, n, f, true, 500) ==> mw == 500
            &&& !present(c, n, f, true, q) && 450 <= q <= 500 && present(c, n, f, true, 400) ==> mw == 400
            &&& !present(c, n, f, true, q) && !special && q <= 500 && lighter ==> mw < q && forall|i: int|
                0 <= i < n && kept(f, #[trigger] c[i]) && c[i].weight.0 < q ==> c[i].weight.0 <= mw
            &&& !present(c, n, f, true, q) && !special && q <= 500 && !lighter ==> mw > q && forall|i: int|
                0 <= i < n && kept(f, #[trigger] c[i]) ==> c[i].weight.0 >= mw
            &&& !present(c, n, f, true, q) && !special && q > 500 && heavier ==> mw > q && forall|i: int|
                0 <= i < n && kept(f, #[trigger] c[i]) && c[i].weight.0 > q ==> c[i].weight.0 >= mw
            &&& !present(c, n, f, true, q) && !special && q > 500 && !heavier ==> mw < q && forall|i: int|
                0 <= i < n && kept(f, #[trigger] c[i]) ==> c[i].weight.0 <= mw
        }),
{
    let n = c.len() as int;
    let all = no_filter();
    assert(kept(all, c[0]));
    lemma_closest_present(c, all, false, query.stretch.0, query.stretch.0 <= 1000);
    let ms = matching_stretch(c, query);
    let by_stretch = MatchFilter { stretch: Some(ms), style: None };
    let k = choose|i: int| 0 <= i < n && kept(all, #[trigger] c[i]) && key_of(false, c[i]) == ms;
    assert(kept(by_stretch, c[k]));
    let sk = c[k].style;
    assert(style_present(c, n, by_stretch, sk));
    let st = matching_style(c, query, ms);
    assert(style_present(c, n, by_stretch, st)) by {
        let p = style_preference(query.style);
        assert(sk == p[0] || sk == p[1] || sk == p[2]);
    }
    let j = choose|i: int| 0 <= i < n && kept(by_stretch, #[trigger] c[i]) && c[i].style == st;
    let f = MatchFilter { stretch: Some(ms), style: Some(st) };
    assert(kept(f, c[j]));
    let q = query.weight.0;
    lemma_closest_choice(c, f, true, q, q <= 500);
}

fn key(by_weight: bool, p: &Properties) -> (r: u32)
    ensures
        r == key_of(by_weight, *p),
{
    if by_weight {
        p.weight.0
    } else {
        p.stretch.0
    }
}

fn passes(f: &MatchFilter, p: &Properties) -> (r: bool)
    ensures
        r == kept(*f, *p),
{
    let s_ok = match f.stretch {
        Some(s) => p.stretch.0 == s,
        None => true,
    };
    let st_ok = match f.style {
        Some(st) => p.style == st,
        None => true,
    };
    s_ok && st_ok
}

/// Whether some kept candidate has key `v`.
fn find_key(c: &[Properties], f: &MatchFilter, w: bool, v: u32) -> (r: bool)
    ensures
        r == present(c@, c@.len() as int, *f, w, v),
{
    let mut i: usize = 0;
    while i < c.len()
        invariant
            0 <= i <= c@.len(),
            !present(c@, i as int, *f, w, v),
        decreases c@.len() - i,
    {
        if passes(f, &c[i]) && key(w, &c[i]) == v {
            assert(present(c@, i + 1, *f, w, v));
            return true;
        }
        i = i + 1;
    }
    false
}

/// Whether some kept candidate has style `st`.
fn find_style(c: &[Properties], f: &MatchFilter, st: Style) -> (r: bool)
    ensures
        r == style_present(c@, c@.len() as int, *f, st),
{
    let mut i: usize = 0;
    while i < c.len()
        invariant
            0 <= i <= c@.len(),
            !style_present(c@, i as int, *f, st),
        decreases c@.len() - i,
    {
        if passes(f, &c[i]) && c[i].style == st {
            assert(style_present(c@, i + 1, *f, st));
            return true;
        }
        i = i + 1;
    }
    false
}

/// The largest kept key below `v`.
fn find_max_below(c: &[Properties], f: &MatchFilter, w: bool, v: u32) -> (r: Option<u32>)
    ensures
        r == max_below(c@, c@.len() as int, *f, w, v),
{
    let mut best: Option<u32> = None;
    let mut i: usize = 0;
    while i < c.len()
        invariant
            0 <= i <= c@.len(),
            best == max_below(c@, i as int, *f, w, v),
        decreases c@.len() - i,
    {
        let k = key(w, &c[i]);
        if passes(f, &c[i]) && k < v {
            best = match best {
                Some(m) => if k > m {
                    Some(k)
                } else {
                    Some(m)
                },
                None => Some(k),
            };
        }
        i = i + 1;
    }
    best
}

/// The smallest kept key above `v`.
fn find_min_above(c: &[Properties], f: &MatchFilter, w: bool, v: u32) -> (r: Option<u32>)
    ensures
        r == min_above(c@, c@.len() as int, *f, w, v),
{
    let mut best: Option<u32> = None;
    let mut i: usize = 0;
    while i < c.len()
        invariant
            0 <= i <= c@.len(),
            best == min_above(c@, i as int, *f, w, v),
        decreases c@.len() - i,
    {
        let k = key(w, &c[i]);
        if passes(f, &c[i]) && k > v {
            best = match best {
                Some(m) => if k < m {
                    Some(k)
                } else {
                    Some(m)
                },
                None => Some(k),
            };
        }
        i = i + 1;
    }
    best
}

fn find_closest(c: &[Properties], f: &MatchFilter, w: bool, v: u32, narrower_first: bool) -> (r: u32)
    ensures
        r == closest(c@, *f, w, v, narrower_first),
{
    if find_key(c, f, w, v) {
        v
    } else if narrower_first {
        match find_max_below(c, f, w, v) {
            Some(m) => m,
            None => match find_min_above(c, f, w, v) {
                Some(m) => m,
                None => v,
            },
        }
    } else {
        match find_min_above(c, f, w, v) {
            Some(m) => m,
            None => match find_max_below(c, f, w, v) {
                Some(m) => m,
                None => v,
            },
        }
    }
}

fn preferred_styles(st: Style) -> (r: [Style; 3])
    ensures
        r@ == style_preference(st),
{
    match st {
        Style::Italic => [Style::Italic, Style::Oblique, Style::Normal],
        Style::Oblique => [Style::Oblique, Style::Italic, Style::Normal],
        Style::Normal => [Style::Normal, Style::Oblique, Style::Italic],
    }
}

/// Performs font matching according to CSS Fonts Level 3 § 5.2 over the properties of the
/// faces of a family, and returns the index of the chosen face. It fails only when there is no
/// candidate.
pub fn find_best_match(candidates: &[Properties], query: &Properties) -> (r: Result<usize, ()>)
    ensures
        candidates@.len() == 0 <==> r is Err,
        r matches Ok(i) ==> is_best_match(candidates@, *query, i as int),
{
    let c = candidates;
    let ghost cs = c@;
    let ghost n = cs.len() as int;
    if c.len() == 0 {
        return Err(());
    }
    // Step 4a (`font-stretch`).
    let all = MatchFilter { stretch: None, style: None };
    let ms = find_closest(c, &all, false, query.stretch.0, query.stretch.0 <= 1000);
    proof {
        assert(kept(all, cs[0]));
        lemma_closest_present(cs, all, false, query.stretch.0, query.stretch.0 <= 1000);
    }
    assert(ms == matching_stretch(cs, *query));
    // Step 4b (`font-style`).
    let by_stretch = MatchFilter { stretch: Some(ms), style: None };
    let pref = preferred_styles(query.style);
    let st = if find_style(c, &by_stretch, pref[0]) {
        pref[0]
    } else if find_style(c, &by_stretch, pref[1]) {
        pref[1]
    } else {
        pref[2]
    };
    assert(st == matching_style(cs, *query, ms));
    proof {
        let k = choose|i: int| 0 <= i < n && kept(all, #[trigger] cs[i]) && key_of(false, cs[i]) == ms;
        assert(kept(by_stretch, cs[k]));
        let sk = cs[k].style;
        assert(style_present(cs, n, by_stretch, sk));
        assert(style_present(cs, n, by_stretch, st)) by {
            let p = style_preference(query.style);
            assert(sk == p[0] || sk == p[1] || sk == p[2]);
        }
    }
    // Step 4c (`font-weight`).
    let by_style = MatchFilter { stretch: Some(ms), style: Some(st) };
    let q = query.weight.0;
    let mw = if find_key(c, &by_style, true, q) {
        q
    } else if 400 <= q && q < 450 && find_key(c, &by_style, true, 500) {
        500
    } else if 450 <= q && q <= 500 && find_key(c, &by_style, true, 400) {
        400
    } else {
        find_closest(c, &by_style, true, q, q <= 500)
    };
    assert(mw == matching_weight(cs, *query, ms, st));
    proof {
        let k = choose|i: int| 0 <= i < n && kept(by_stretch, #[trigger] cs[i]) && cs[i].style == st;
        assert(kept(by_style, cs[k]));
        lemma_closest_present(cs, by_style, true, q, q <= 500);
    }
    // The first candidate that survived all three steps.
    let mut i: usize = 0;
    while i < c.len()
        invariant
            0 <= i <= n,
            0 < n,
            n == c@.len(),
            cs == c@,
            cs == candidates@,
            present(cs, n, by_style, true, mw),
            forall|j: int| 0 <= j < i ==> !survives(cs, *query, #[trigger] cs[j]),
            ms == matching_stretch(cs, *query),
            st == matching_style(cs, *query, ms),
            mw == matching_weight(cs, *query, ms, st),
            by_style == (MatchFilter { stretch: Some(ms), style: Some(st) }),
        decreases n - i,
    {
        if c[i].stretch.0 == ms && c[i].style == st && c[i].weight.0 == mw {
            assert(survives(cs, *query, cs[i as int]));
            return Ok(i);
        }
        i = i + 1;
    }
    proof {
        let k = choose|j: int| 0 <= j < n && kept(by_style, #[trigger] cs[j]) && key_of(true, cs[j]) == mw;
        assert(survives(cs, *query, cs[k]));
    }
    Err(())
}

} // verus!
