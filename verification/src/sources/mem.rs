//! A source that keeps fonts in memory.

use vstd::prelude::*;
use crate::error::{FontLoadingError, SelectionError};
use crate::family::{handle_loads, Face};
use crate::handle::{FamilyHandle, Handle};
use crate::source::Source;
use crate::names::{lex_lt, lemma_lex_irreflexive, lemma_lex_total, lemma_lex_transitive, name_lt};

verus! {

/// A font known to a memory source: the names that its loader reported and its handle.
pub struct FamilyEntry {
    /// The name of the font's family.
    pub family_name: String,
    /// The PostScript name of the font.
    pub postscript_name: String,
    /// Where the font is.
    pub font: Handle,
}

/// No entry comes before an earlier one by family name.
pub open spec fn names_sorted(es: Seq<FamilyEntry>) -> bool {
    forall|i: int, j: int|
        0 <= i < j < es.len() ==> !lex_lt(#[trigger] es[j].family_name@, #[trigger] es[i].family_name@)
}

/// `s` with `x` inserted after every entry whose family name does not come after `x`'s.
pub open spec fn insert_entry(s: Seq<FamilyEntry>, x: FamilyEntry) -> Seq<FamilyEntry>
    decreases s.len(),
{
    if s.len() == 0 {
        seq![x]
    } else if lex_lt(x.family_name@, s[0].family_name@) {
        seq![x] + s
    } else {
        seq![s[0]] + insert_entry(s.drop_first(), x)
    }
}

/// The entries sorted by family name, entries of equal family names kept in their order.
pub open spec fn sorted_entries(s: Seq<FamilyEntry>) -> Seq<FamilyEntry>
    decreases s.len(),
{
    if s.len() == 0 {
        s
    } else {
        insert_entry(sorted_entries(s.drop_last()), s.last())
    }
}

/// The handles of the entries whose family name is `name`, in order.
pub open spec fn fonts_named(es: Seq<FamilyEntry>, name: Seq<char>) -> Seq<Handle>
    decreases es.len(),
{
    if es.len() == 0 {
        Seq::empty()
    } else {
        let rest = fonts_named(es.drop_last(), name);
        if es.last().family_name@ == name {
            rest.push(es.last().font)
        } else {
            rest
        }
    }
}

/// The family names of the entries, in order.
pub open spec fn family_names(es: Seq<FamilyEntry>) -> Seq<Seq<char>> {
    es.map_values(|e: FamilyEntry| e.family_name@)
}

/// `s` with every element that equals the one before it left out.
pub open spec fn dedup(s: Seq<Seq<char>>) -> Seq<Seq<char>>
    decreases s.len(),
{
    if s.len() == 0 {
        s
    } else {
        let rest = dedup(s.drop_last());
        if s.len() >= 2 && s[s.len() - 2] == s.last() {
            rest
        } else {
            rest.push(s.last())
        }
    }
}

/// `i` is the first entry with PostScript name `name`.
pub open spec fn first_with_postscript_name(es: Seq<FamilyEntry>, name: Seq<char>, i: int) -> bool {
    &&& 0 <= i < es.len()
    &&& es[i].postscript_name@ == name
    &&& forall|j: int| 0 <= j < i ==> (#[trigger] es[j]).postscript_name@ != name
}

/// The first load that failed, if any.
pub open spec fn first_failure(fonts: Seq<Result<FamilyEntry, FontLoadingError>>, k: int) -> bool {
    &&& 0 <= k < fonts.len()
    &&& fonts[k] is Err
    &&& forall|j: int| 0 <= j < k ==> (#[trigger] fonts[j]) is Ok
}

/// The entries of loads that all succeeded.
pub open spec fn loaded_entries(fonts: Seq<Result<FamilyEntry, FontLoadingError>>) -> Seq<FamilyEntry> {
    fonts.map_values(|r: Result<FamilyEntry, FontLoadingError>| r->Ok_0)
}

/// Every entry before position `p` has a family name that `x`'s does not come before, and
/// every entry from `p` on one that `x`'s comes before.
pub open spec fn insertion_point(t: Seq<FamilyEntry>, x: FamilyEntry, p: int) -> bool {
    &&& 0 <= p <= t.len()
    &&& forall|i: int| 0 <= i < p ==> !lex_lt(x.family_name@, #[trigger] t[i].family_name@)
    &&& forall|i: int| p <= i < t.len() ==> lex_lt(x.family_name@, #[trigger] t[i].family_name@)
}

proof fn lemma_insert_entry(s: Seq<FamilyEntry>, x: FamilyEntry, p: int)
    requires
        names_sorted(s),
        0 <= p <= s.len(),
        forall|i: int| 0 <= i < p ==> !lex_lt(x.family_name@, #[trigger] s[i].family_name@),
        forall|i: int| p <= i < s.len() ==> lex_lt(x.family_name@, #[trigger] s[i].family_name@),
    ensures
        insert_entry(s, x) == s.take(p) + seq![x] + s.skip(p),
        names_sorted(insert_entry(s, x)),
    decreases s.len(),
{
    if s.len() == 0 {
        assert(s.take(p) + seq![x] + s.skip(p) =~= seq![x]);
    } else if p == 0 {
        assert(lex_lt(x.family_name@, s[0].family_name@));
        assert(s.take(p) + seq![x] + s.skip(p) =~= seq![x] + s);
        let r = seq![x] + s;
        assert forall|i: int, j: int| 0 <= i < j < r.len() implies !lex_lt(
            #[trigger] r[j].family_name@,
            #[trigger] r[i].family_name@,
        ) by {
            if i == 0 {
                let a = x.family_name@;
                let b = r[j].family_name@;
                assert(lex_lt(a, b));
                lemma_lex_total(a, b);
                lemma_lex_irreflexive(a);
            } else {
                assert(r[i] == s[i - 1] && r[j] == s[j - 1]);
            }
        }
    } else {
        let t = s.drop_first();
        assert forall|i: int, j: int| 0 <= i < j < t.len() implies !lex_lt(
            #[trigger] t[j].family_name@,
            #[trigger] t[i].family_name@,
        ) by {
            assert(t[i] == s[i + 1] && t[j] == s[j + 1]);
        }
        assert forall|i: int| 0 <= i < p - 1 implies !lex_lt(x.family_name@, #[trigger] t[i].family_name@) by {
            assert(t[i] == s[i + 1]);
        }
        assert forall|i: int| p - 1 <= i < t.len() implies lex_lt(x.family_name@, #[trigger] t[i].family_name@) by {
            assert(t[i] == s[i + 1]);
        }
        lemma_insert_entry(t, x, p - 1);
        assert(!lex_lt(x.family_name@, s[0].family_name@));
        assert(s.take(p) + seq![x] + s.skip(p) =~= seq![s[0]] + (t.take(p - 1) + seq![x] + t.skip(p - 1)));
        let r = seq![s[0]] + insert_entry(t, x);
        let ins = insert_entry(t, x);
        assert forall|i: int, j: int| 0 <= i < j < r.len() implies !lex_lt(
            #[trigger] r[j].family_name@,
            #[trigger] r[i].family_name@,
        ) by {
            if i == 0 {
                let a = s[0].family_name@;
                let b = r[j].family_name@;
                assert(r[j] == ins[j - 1]);
                if j - 1 < p - 1 {
                    assert(ins[j - 1] == t[j - 1]);
                    assert(t[j - 1] == s[j]);
                } else if j - 1 == p - 1 {
                    assert(ins[j - 1] == x);
                    // x does not come before s[0], and s[0] is not after x's name
                    lemma_lex_total(a, b);
                    if lex_lt(b, a) {
                        assert(!lex_lt(x.family_name@, s[0].family_name@));
                    }
                } else {
                    assert(ins[j - 1] == t[j - 2]);
                    assert(t[j - 2] == s[j - 1]);
                }
            } else {
                assert(r[i] == ins[i - 1] && r[j] == ins[j - 1]);
            }
        }
    }
}

proof fn lemma_sorted_entries(s: Seq<FamilyEntry>)
    ensures
        names_sorted(sorted_entries(s)),
        sorted_entries(s).len() == s.len(),
    decreases s.len(),
{
    if s.len() > 0 {
        lemma_sorted_entries(s.drop_last());
        let t = sorted_entries(s.drop_last());
        let x = s.last();
        lemma_upper_bound_exists(t, x);
        let p = choose|p: int| insertion_point(t, x, p);
        lemma_insert_entry(t, x, p);
    }
}

proof fn lemma_upper_bound_exists(t: Seq<FamilyEntry>, x: FamilyEntry)
    requires
        names_sorted(t),
    ensures
        exists|p: int| insertion_point(t, x, p),
    decreases t.len(),
{
    if t.len() == 0 {
        assert(insertion_point(t, x, 0));
    } else {
        let u = t.drop_last();
        assert forall|i: int, j: int| 0 <= i < j < u.len() implies !lex_lt(
            #[trigger] u[j].family_name@,
            #[trigger] u[i].family_name@,
        ) by {
            assert(u[i] == t[i] && u[j] == t[j]);
        }
        lemma_upper_bound_exists(u, x);
        let p = choose|p: int| insertion_point(u, x, p);
        let last = t.len() - 1;
        if lex_lt(x.family_name@, t[last].family_name@) {
            assert forall|i: int| p <= i < t.len() implies lex_lt(x.family_name@, #[trigger] t[i].family_name@) by {
                if i < last {
                    assert(u[i] == t[i]);
                }
            }
            assert forall|i: int| 0 <= i < p implies !lex_lt(x.family_name@, #[trigger] t[i].family_name@) by {
                assert(u[i] == t[i]);
            }
            assert(insertion_point(t, x, p));
        } else {
            // everything before `last` does not come after it, so x does not come before them
            assert forall|i: int| 0 <= i < t.len() implies !lex_lt(x.family_name@, #[trigger] t[i].family_name@) by {
                if i < last {
                    let a = x.family_name@;
                    let b = t[i].family_name@;
                    let c = t[last].family_name@;
                    assert(!lex_lt(c, b));
                    lemma_lex_total(b, c);
                    if lex_lt(a, b) {
                        if b == c {
                        } else {
                            lemma_lex_transitive(a, b, c);
                        }
                    }
                }
            }
            assert(insertion_point(t, x, t.len() as int));
        }
    }
}

/// Whether two names are the same.
pub(crate) fn names_equal(a: &str, b: &str) -> (r: bool)
    ensures
        r == (a@ == b@),
{
    proof {
        lemma_lex_total(a@, b@);
    }
    !name_lt(a, b) && !name_lt(b, a)
}

/// Sorts entries by family name, keeping entries of equal family names in their order.
fn sort_by_family_name(entries: Vec<FamilyEntry>) -> (r: Vec<FamilyEntry>)
    ensures
        r@ == sorted_entries(entries@),
{
    let ghost es = entries@;
    let n = entries.len();
    let mut entries = entries;
    let mut reversed: Vec<FamilyEntry> = Vec::new();
    while entries.len() > 0
        invariant
            entries@ + reversed@.reverse() == es,
        decreases entries@.len(),
    {
        let e = entries.pop().unwrap();
        proof {
            assert(entries@ + reversed@.push(e).reverse() =~= es);
        }
        reversed.push(e);
    }
    assert(reversed@.reverse() =~= es);
    let mut sorted: Vec<FamilyEntry> = Vec::new();
    let mut k: usize = 0;
    while reversed.len() > 0
        invariant
            k + reversed@.len() == es.len(),
            es.len() == n,
            reversed@.reverse() == es.skip(k as int),
            sorted@ == sorted_entries(es.take(k as int)),
            names_sorted(sorted@),
        decreases reversed@.len(),
    {
        let ghost before = reversed@;
        let x = reversed.pop().unwrap();
        proof {
            assert(before =~= reversed@.push(x));
            lemma_pop_reversed(before, reversed@, x, es, k as int);
        }
        // The first position whose family name comes after x's.
        let mut lo: usize = 0;
        let mut hi: usize = sorted.len();
        while lo < hi
            invariant
                0 <= lo <= hi <= sorted@.len(),
                names_sorted(sorted@),
                forall|i: int| 0 <= i < lo ==> !lex_lt(x.family_name@, #[trigger] sorted@[i].family_name@),
                forall|i: int| hi <= i < sorted@.len() ==> lex_lt(x.family_name@, #[trigger] sorted@[i].family_name@),
            decreases hi - lo,
        {
            let mid = lo + (hi - lo) / 2;
            if name_lt(x.family_name.as_str(), sorted[mid].family_name.as_str()) {
                proof {
                    assert forall|i: int| mid <= i < sorted@.len() implies lex_lt(
                        x.family_name@,
                        #[trigger] sorted@[i].family_name@,
                    ) by {
                        if i > mid {
                            let b = sorted@[mid as int].family_name@;
                            let c = sorted@[i].family_name@;
                            lemma_lex_total(b, c);
                            if b != c {
                                lemma_lex_transitive(x.family_name@, b, c);
                            }
                        }
                    }
                }
                hi = mid;
            } else {
                proof {
                    assert forall|i: int| 0 <= i < mid + 1 implies !lex_lt(
                        x.family_name@,
                        #[trigger] sorted@[i].family_name@,
                    ) by {
                        if i < mid {
                            let b = sorted@[i].family_name@;
                            let c = sorted@[mid as int].family_name@;
                            lemma_lex_total(b, c);
                            if lex_lt(x.family_name@, b) && b != c {
                                lemma_lex_transitive(x.family_name@, b, c);
                            }
                        }
                    }
                }
                lo = mid + 1;
            }
        }
        let ghost before_insert = sorted@;
        proof {
            lemma_insert_entry(sorted@, x, lo as int);
            assert(before_insert.insert(lo as int, x) =~= before_insert.take(lo as int) + seq![x]
                + before_insert.skip(lo as int));
            assert(es.take(k + 1).drop_last() =~= es.take(k as int));
            assert(es.take(k + 1).last() == x);
        }
        sorted.insert(lo, x);
        k = k + 1;
    }
    assert(es.take(k as int) =~= es);
    sorted
}

/// Some entry is of family `x`.
pub open spec fn has_family(es: Seq<FamilyEntry>, x: Seq<char>) -> bool {
    exists|i: int| 0 <= i < es.len() && (#[trigger] es[i]).family_name@ == x
}

/// Some name of `v` is `x`.
pub open spec fn lists_name(v: Seq<String>, x: Seq<char>) -> bool {
    exists|i: int| 0 <= i < v.len() && (#[trigger] v[i])@ == x
}

/// The family names are in order: no name comes before an earlier one.
pub open spec fn names_in_order(s: Seq<Seq<char>>) -> bool {
    forall|i: int, j: int| 0 <= i < j < s.len() ==> !lex_lt(#[trigger] s[j], #[trigger] s[i])
}

/// A name is kept by `dedup` exactly when it occurs.
pub proof fn lemma_dedup_contains(s: Seq<Seq<char>>, x: Seq<char>)
    ensures
        dedup(s).contains(x) <==> s.contains(x),
    decreases s.len(),
{
    if s.len() > 0 {
        let t = s.drop_last();
        let d = dedup(t);
        lemma_dedup_contains(t, x);
        let pushed = !(s.len() >= 2 && s[s.len() - 2] == s.last());
        if pushed {
            assert(dedup(s) == d.push(s.last()));
        } else {
            assert(dedup(s) == d);
        }
        if dedup(s).contains(x) {
            let k = choose|k: int| 0 <= k < dedup(s).len() && dedup(s)[k] == x;
            if k < d.len() {
                assert(d[k] == x);
                assert(d.contains(x));
                let m = choose|m: int| 0 <= m < t.len() && t[m] == x;
                assert(s[m] == x);
            } else {
                assert(s[s.len() - 1] == x);
            }
        }
        if s.contains(x) {
            let m = choose|m: int| 0 <= m < s.len() && s[m] == x;
            if m < s.len() - 1 {
                assert(t[m] == x);
                assert(t.contains(x));
                let k = choose|k: int| 0 <= k < d.len() && d[k] == x;
                assert(dedup(s)[k] == x);
            } else if pushed {
                assert(dedup(s)[d.len() as int] == x);
            } else {
                assert(t[t.len() - 1] == x);
                assert(t.contains(x));
                let k = choose|k: int| 0 <= k < d.len() && d[k] == x;
                assert(dedup(s)[k] == x);
            }
        }
    }
}

/// Without repeats next to each other, names in order come out strictly increasing, and the
/// last name is kept.
pub proof fn lemma_dedup_increasing(s: Seq<Seq<char>>)
    requires
        names_in_order(s),
    ensures
        forall|i: int, j: int| 0 <= i < j < dedup(s).len() ==> lex_lt(#[trigger] dedup(s)[i], #[trigger] dedup(s)[j]),
        s.len() > 0 ==> dedup(s).len() > 0 && dedup(s).last() == s.last(),
    decreases s.len(),
{
    if s.len() > 0 {
        let n = s.len() as int;
        let t = s.drop_last();
        assert forall|i: int, j: int| 0 <= i < j < t.len() implies !lex_lt(#[trigger] t[j], #[trigger] t[i]) by {
            assert(t[i] == s[i] && t[j] == s[j]);
        }
        lemma_dedup_increasing(t);
        let d = dedup(t);
        if n >= 2 && s[n - 2] == s.last() {
        } else {
            let last = s.last();
            assert forall|i: int| 0 <= i < d.len() implies lex_lt(#[trigger] d[i], last) by {
                assert(d.contains(d[i]));
                lemma_dedup_contains(t, d[i]);
                let k = choose|k: int| 0 <= k < t.len() && t[k] == d[i];
                assert(s[k] == d[i]);
                assert(!lex_lt(s[n - 1], s[k]));
                lemma_lex_total(s[k], last);
                if s[k] == last {
                    if k < n - 2 {
                        assert(!lex_lt(s[n - 2], s[k]));
                        assert(!lex_lt(s[n - 1], s[n - 2]));
                        lemma_lex_total(s[n - 2], s[k]);
                    }
                }
            }
            let r = d.push(last);
            assert forall|i: int, j: int| 0 <= i < j < r.len() implies lex_lt(#[trigger] r[i], #[trigger] r[j]) by {
                if j < d.len() {
                    assert(r[i] == d[i] && r[j] == d[j]);
                } else {
                    assert(r[i] == d[i]);
                }
            }
        }
    }
}

/// The handles of a family are there exactly when some entry has that family name.
pub proof fn lemma_fonts_named_nonempty(es: Seq<FamilyEntry>, name: Seq<char>)
    ensures
        fonts_named(es, name).len() > 0 <==> exists|i: int| 0 <= i < es.len() && (#[trigger] es[i]).family_name@ == name,
    decreases es.len(),
{
    if es.len() > 0 {
        let t = es.drop_last();
        lemma_fonts_named_nonempty(t, name);
        if exists|i: int| 0 <= i < t.len() && (#[trigger] t[i]).family_name@ == name {
            let k = choose|i: int| 0 <= i < t.len() && (#[trigger] t[i]).family_name@ == name;
            assert(es[k] == t[k]);
        }
        if exists|i: int| 0 <= i < es.len() && (#[trigger] es[i]).family_name@ == name {
            let k = choose|i: int| 0 <= i < es.len() && (#[trigger] es[i]).family_name@ == name;
            if k < es.len() - 1 {
                assert(es[k] == t[k]);
            }
        }
    }
}

/// Every family name that a source lists can be selected: the fonts of a listed family are
/// never empty.
pub proof fn lemma_listed_families_are_selectable(es: Seq<FamilyEntry>, name: Seq<char>)
    requires
        dedup(family_names(es)).contains(name),
    ensures
        fonts_named(es, name).len() > 0,
{
    lemma_dedup_contains(family_names(es), name);
    let k = choose|k: int| 0 <= k < family_names(es).len() && family_names(es)[k] == name;
    assert(es[k].family_name@ == name);
    lemma_fonts_named_nonempty(es, name);
}

proof fn lemma_fonts_named_prepend(a: FamilyEntry, s: Seq<FamilyEntry>, name: Seq<char>)
    ensures
        fonts_named(seq![a] + s, name) == (if a.family_name@ == name {
            seq![a.font]
        } else {
            Seq::empty()
        }) + fonts_named(s, name),
    decreases s.len(),
{
    let pre = if a.family_name@ == name {
        seq![a.font]
    } else {
        Seq::<Handle>::empty()
    };
    if s.len() == 0 {
        let one = seq![a] + s;
        assert(one.drop_last() =~= Seq::<FamilyEntry>::empty());
        assert(one.last() == a);
        assert(fonts_named(one.drop_last(), name) =~= Seq::<Handle>::empty());
        assert(fonts_named(s, name) =~= Seq::<Handle>::empty());
        if a.family_name@ == name {
            assert(fonts_named(one, name) =~= seq![a.font]);
        } else {
            assert(fonts_named(one, name) =~= Seq::<Handle>::empty());
        }
        assert(pre + fonts_named(s, name) =~= pre);
    } else {
        let t = s.drop_last();
        lemma_fonts_named_prepend(a, t, name);
        assert((seq![a] + s).drop_last() =~= seq![a] + t);
        assert((seq![a] + s).last() == s.last());
        if s.last().family_name@ == name {
            assert(pre + fonts_named(t, name).push(s.last().font) =~= (pre + fonts_named(t, name)).push(
                s.last().font,
            ));
        }
    }
}

proof fn lemma_fonts_named_insert(t: Seq<FamilyEntry>, x: FamilyEntry, name: Seq<char>)
    requires
        names_sorted(t),
    ensures
        fonts_named(insert_entry(t, x), name) == (if x.family_name@ == name {
            fonts_named(t, name).push(x.font)
        } else {
            fonts_named(t, name)
        }),
    decreases t.len(),
{
    if t.len() == 0 {
        assert(insert_entry(t, x) =~= seq![x]);
        lemma_fonts_named_prepend(x, t, name);
        assert(seq![x] + t =~= seq![x]);
        assert(fonts_named(t, name) =~= Seq::<Handle>::empty());
        if x.family_name@ == name {
            assert(seq![x.font] + fonts_named(t, name) =~= fonts_named(t, name).push(x.font));
        } else {
            assert(Seq::<Handle>::empty() + fonts_named(t, name) =~= fonts_named(t, name));
        }
    } else if lex_lt(x.family_name@, t[0].family_name@) {
        lemma_fonts_named_prepend(x, t, name);
        if x.family_name@ == name {
            // every entry of `t` comes after `name`, so none of them is of that family
            assert forall|i: int| 0 <= i < t.len() implies (#[trigger] t[i]).family_name@ != name by {
                if i > 0 {
                    assert(!lex_lt(t[i].family_name@, t[0].family_name@));
                    lemma_lex_total(t[0].family_name@, t[i].family_name@);
                    if t[0].family_name@ != t[i].family_name@ {
                        lemma_lex_transitive(name, t[0].family_name@, t[i].family_name@);
                    }
                }
                lemma_lex_irreflexive(name);
            }
            lemma_fonts_named_nonempty(t, name);
            assert(fonts_named(t, name) =~= Seq::<Handle>::empty());
            assert(seq![x.font] + fonts_named(t, name) =~= fonts_named(t, name).push(x.font));
        } else {
            assert(Seq::<Handle>::empty() + fonts_named(t, name) =~= fonts_named(t, name));
        }
    } else {
        let u = t.drop_first();
        assert forall|i: int, j: int| 0 <= i < j < u.len() implies !lex_lt(
            #[trigger] u[j].family_name@,
            #[trigger] u[i].family_name@,
        ) by {
            assert(u[i] == t[i + 1] && u[j] == t[j + 1]);
        }
        lemma_fonts_named_insert(u, x, name);
        lemma_fonts_named_prepend(t[0], insert_entry(u, x), name);
        lemma_fonts_named_prepend(t[0], u, name);
        assert(seq![t[0]] + u =~= t);
        let pre = if t[0].family_name@ == name {
            seq![t[0].font]
        } else {
            Seq::<Handle>::empty()
        };
        if x.family_name@ == name {
            assert(pre + fonts_named(u, name).push(x.font) =~= (pre + fonts_named(u, name)).push(x.font));
        }
    }
}

/// Sorting by family name keeps each family's fonts in the order they were given.
pub proof fn lemma_family_order_kept(s: Seq<FamilyEntry>, name: Seq<char>)
    ensures
        fonts_named(sorted_entries(s), name) == fonts_named(s, name),
    decreases s.len(),
{
    if s.len() > 0 {
        lemma_family_order_kept(s.drop_last(), name);
        lemma_sorted_entries(s.drop_last());
        lemma_fonts_named_insert(sorted_entries(s.drop_last()), s.last(), name);
    }
}

/// Sorting by family name puts the entries in order and neither loses nor adds any.
pub proof fn lemma_sorted_entries_permutes(s: Seq<FamilyEntry>)
    ensures
        names_sorted(sorted_entries(s)),
        sorted_entries(s).to_multiset() == s.to_multiset(),
    decreases s.len(),
{
    lemma_sorted_entries(s);
    if s.len() > 0 {
        let t = sorted_entries(s.drop_last());
        let x = s.last();
        lemma_sorted_entries_permutes(s.drop_last());
        lemma_upper_bound_exists(t, x);
        let p = choose|p: int| insertion_point(t, x, p);
        lemma_insert_entry(t, x, p);
        assert(t.insert(p, x) =~= t.take(p) + seq![x] + t.skip(p));
        vstd::seq_lib::to_multiset_insert(t, p, x);
        vstd::seq_lib::to_multiset_build(s.drop_last(), x);
        assert(s.drop_last().push(x) =~= s);
    }
}

/// A source built from entries finds a family exactly when some entry has that family name,
/// and then gives the handles of those entries, each once, in the order the entries were given.
pub proof fn lemma_sorted_family_lookup(s: Seq<FamilyEntry>, name: Seq<char>)
    ensures
        has_family(sorted_entries(s), name) <==> has_family(s, name),
        fonts_named(sorted_entries(s), name) == fonts_named(s, name),
{
    lemma_family_order_kept(s, name);
    lemma_fonts_named_nonempty(s, name);
    lemma_fonts_named_nonempty(sorted_entries(s), name);
}

/// Sorting by family name neither loses nor adds a font.
pub proof fn lemma_sorted_fonts_permute(s: Seq<FamilyEntry>)
    ensures
        sorted_entries(s).map_values(|e: FamilyEntry| e.font).to_multiset() == s.map_values(
            |e: FamilyEntry| e.font,
        ).to_multiset(),
    decreases s.len(),
{
    lemma_sorted_entries(s);
    if s.len() > 0 {
        let t = sorted_entries(s.drop_last());
        let x = s.last();
        lemma_sorted_fonts_permute(s.drop_last());
        lemma_sorted_entries(s.drop_last());
        lemma_upper_bound_exists(t, x);
        let p = choose|p: int| insertion_point(t, x, p);
        lemma_insert_entry(t, x, p);
        let tf = t.map_values(|e: FamilyEntry| e.font);
        assert(sorted_entries(s).map_values(|e: FamilyEntry| e.font) =~= tf.insert(p, x.font));
        vstd::seq_lib::to_multiset_insert(tf, p, x.font);
        let df = s.drop_last().map_values(|e: FamilyEntry| e.font);
        vstd::seq_lib::to_multiset_build(df, x.font);
        assert(df.push(x.font) =~= s.map_values(|e: FamilyEntry| e.font));
    }
}

/// Names in entry order are in order when the entries are.
proof fn lemma_family_names_in_order(es: Seq<FamilyEntry>)
    requires
        names_sorted(es),
    ensures
        names_in_order(family_names(es)),
{
    let n = family_names(es);
    assert forall|i: int, j: int| 0 <= i < j < n.len() implies !lex_lt(#[trigger] n[j], #[trigger] n[i]) by {
        assert(n[i] == es[i].family_name@ && n[j] == es[j].family_name@);
    }
}

/// Popping `x` off the back of `rest` where `rest` reversed is `whole` from `k` on leaves the
/// remainder reversed as `whole` from `k + 1` on, and `x` is `whole[k]`.
proof fn lemma_pop_reversed<T>(rest: Seq<T>, remaining: Seq<T>, x: T, whole: Seq<T>, k: int)
    requires
        rest == remaining.push(x),
        rest.reverse() == whole.skip(k),
        0 <= k < whole.len(),
    ensures
        x == whole[k],
        remaining.reverse() == whole.skip(k + 1),
{
    assert(rest.reverse() =~= seq![x] + remaining.reverse());
    assert(whole.skip(k)[0] == x);
    assert(remaining.reverse() =~= whole.skip(k).drop_first());
    assert(whole.skip(k).drop_first() =~= whole.skip(k + 1));
}

proof fn lemma_loaded_step(fs: Seq<Result<FamilyEntry, FontLoadingError>>, k: int)
    requires
        0 <= k < fs.len(),
        fs[k] is Ok,
    ensures
        loaded_entries(fs.take(k + 1)) == loaded_entries(fs.take(k)).push(fs[k]->Ok_0),
{
    assert(loaded_entries(fs.take(k + 1)) =~= loaded_entries(fs.take(k)).push(fs[k]->Ok_0));
}

proof fn lemma_first_failure_unique(fs: Seq<Result<FamilyEntry, FontLoadingError>>, k: int)
    requires
        first_failure(fs, k),
    ensures
        forall|k2: int| first_failure(fs, k2) ==> k2 == k,
{
    assert forall|k2: int| first_failure(fs, k2) implies k2 == k by {
        if k2 < k {
            assert(fs[k2] is Ok);
        } else if k2 > k {
            assert(fs[k] is Ok);
        }
    }
}

/// The names of `e` are the family and PostScript names that the loader `F` reported for a face
/// that it loaded from `e`'s handle.
pub open spec fn entry_reported<F: Face>(e: FamilyEntry) -> bool {
    exists|face: F, family: String, postscript: String|
        #![trigger call_ensures(F::from_handle, (&e.font,), Ok::<F, FontLoadingError>(face)), call_ensures(F::family_name, (&face,), family), call_ensures(F::postscript_name, (&face,), postscript)]
        call_ensures(F::from_handle, (&e.font,), Ok::<F, FontLoadingError>(face)) && call_ensures(
            F::family_name,
            (&face,),
            family,
        ) && call_ensures(F::postscript_name, (&face,), postscript) && e.family_name@ == family@
            && e.postscript_name@ == postscript@
}

/// A source that keeps fonts in memory.
pub struct MemSource {
    families: Vec<FamilyEntry>,
}

impl MemSource {
    #[verifier::type_invariant]
    spec fn sorted_by_family_name(self) -> bool {
        names_sorted(self.families@)
    }

    /// The fonts of the source, ordered by family name.
    pub closed spec fn entries(self) -> Seq<FamilyEntry> {
        self.families@
    }

    /// Creates a new memory source from the outcome of loading each font: the entry of a font
    /// that loaded, or the error of one that did not. The first error is returned; otherwise the
    /// fonts are kept sorted by family name, fonts of one family in the order given.
    pub fn from_fonts(fonts: Vec<Result<FamilyEntry, FontLoadingError>>) -> (r: Result<
        MemSource,
        FontLoadingError,
    >)
        ensures
            (exists|k: int| first_failure(fonts@, k)) <==> r is Err,
            forall|k: int| first_failure(fonts@, k) ==> r == Err::<MemSource, FontLoadingError>(fonts@[k]->Err_0),
            r matches Ok(m) ==> m.entries() == sorted_entries(loaded_entries(fonts@)),
    {
        let ghost fs = fonts@;
        let n = fonts.len();
        let mut pending = fonts;
        let mut reversed: Vec<Result<FamilyEntry, FontLoadingError>> = Vec::new();
        while pending.len() > 0
            invariant
                pending@ + reversed@.reverse() == fs,
            decreases pending@.len(),
        {
            let f = pending.pop().unwrap();
            proof {
                assert(pending@ + reversed@.push(f).reverse() =~= fs);
            }
            reversed.push(f);
        }
        assert(reversed@.reverse() =~= fs);
        let mut families: Vec<FamilyEntry> = Vec::new();
        let mut k: usize = 0;
        while reversed.len() > 0
            invariant
                k + reversed@.len() == fs.len(),
                fs == fonts@,
                fs.len() == n,
                reversed@.reverse() == fs.skip(k as int),
                forall|j: int| 0 <= j < k ==> (#[trigger] fs[j]) is Ok,
                families@ == loaded_entries(fs.take(k as int)),
            decreases reversed@.len(),
        {
            let ghost before = reversed@;
            let f = reversed.pop().unwrap();
            proof {
                assert(before =~= reversed@.push(f));
                lemma_pop_reversed(before, reversed@, f, fs, k as int);
            }
            match f {
                Ok(entry) => {
                    proof {
                        lemma_loaded_step(fs, k as int);
                    }
                    families.push(entry);
                },
                Err(e) => {
                    proof {
                        assert(first_failure(fs, k as int));
                        lemma_first_failure_unique(fs, k as int);
                    }
                    return Err(e);
                },
            }
            k = k + 1;
        }
        assert(fs.take(k as int) =~= fs);
        assert forall|k2: int| !first_failure(fs, k2) by {
            if 0 <= k2 < fs.len() {
                assert(fs[k2] is Ok);
            }
        }
        let families = sort_by_family_name(families);
        proof {
            lemma_sorted_entries(loaded_entries(fs));
        }
        Ok(MemSource { families })
    }

    /// Creates a new memory source from font handles, loading each font with the loader `F` to
    /// learn its family and PostScript names. The first font that fails to load fails the whole
    /// source; otherwise the fonts are kept sorted by family name, fonts of one family in the
    /// order given.
    pub fn load_fonts<F: Face>(handles: Vec<Handle>) -> (r: Result<MemSource, FontLoadingError>)
        ensures
            handles@.len() == 0 ==> r is Ok,
            r matches Ok(m) ==> exists|entries: Seq<FamilyEntry>|
                #[trigger] sorted_entries(entries) == m.entries() && entries.map_values(
                    |e: FamilyEntry| e.font,
                ) == handles@ && forall|k: int| 0 <= k < entries.len() ==> entry_reported::<F>(#[trigger] entries[k]),
            r matches Err(e) ==> exists|k: int|
                0 <= k < handles@.len() && #[trigger] call_ensures(F::from_handle, (&handles@[k],), Err::<F, FontLoadingError>(e))
                    && forall|j: int| 0 <= j < k ==> handle_loads::<F>(#[trigger] handles@[j]),
    {
        let mut loaded: Vec<Result<FamilyEntry, FontLoadingError>> = Vec::new();
        let n = handles.len();
        let mut i: usize = 0;
        while i < n
            invariant
                n == handles@.len(),
                i <= n,
                loaded@.len() == i,
                forall|k: int| 0 <= k < i ==> (#[trigger] loaded@[k]) is Ok && loaded@[k]->Ok_0.font == handles@[k],
                forall|k: int| 0 <= k < i ==> entry_reported::<F>(#[trigger] loaded@[k]->Ok_0),
                forall|k: int| 0 <= k < i ==> handle_loads::<F>(#[trigger] handles@[k]),
            decreases n - i,
        {
            let answer = F::from_handle(&handles[i]);
            assert(call_ensures(F::from_handle, (&handles@[i as int],), answer));
            match answer {
                Ok(font) => {
                    let family_name = font.family_name();
                    let postscript_name = font.postscript_name();
                    assert(call_ensures(F::family_name, (&font,), family_name));
                    assert(call_ensures(F::postscript_name, (&font,), postscript_name));
                    let entry = FamilyEntry { family_name, postscript_name, font: handles[i].clone() };
                    assert(entry_reported::<F>(entry));
                    assert(handle_loads::<F>(handles@[i as int]));
                    loaded.push(Ok(entry));
                },
                Err(e) => return Err(e),
            }
            i = i + 1;
        }
        let ghost entries = loaded_entries(loaded@);
        assert forall|k: int| !first_failure(loaded@, k) by {
            if 0 <= k < loaded@.len() {
                assert(loaded@[k] is Ok);
            }
        }
        assert(entries.map_values(|e: FamilyEntry| e.font) =~= handles@);
        assert forall|k: int| 0 <= k < entries.len() implies entry_reported::<F>(#[trigger] entries[k]) by {
            assert(entry_reported::<F>(loaded@[k]->Ok_0));
        }
        match MemSource::from_fonts(loaded) {
            Ok(m) => {
                assert(sorted_entries(entries) == m.entries());
                Ok(m)
            },
            Err(e) => {
                assert(false);
                Err(e)
            },
        }
    }

    /// Returns the handles of all the fonts of the source, ordered by family name.
    pub fn all_fonts(&self) -> (r: Result<Vec<Handle>, SelectionError>)
        ensures
            r matches Ok(v) && v@ == self.entries().map_values(|e: FamilyEntry| e.font),
    {
        let mut fonts: Vec<Handle> = Vec::new();
        let mut i: usize = 0;
        while i < self.families.len()
            invariant
                0 <= i <= self.families@.len(),
                fonts@ == self.families@.take(i as int).map_values(|e: FamilyEntry| e.font),
            decreases self.families@.len() - i,
        {
            let h = self.families[i].font.clone();
            proof {
                assert(self.families@.take(i + 1).map_values(|e: FamilyEntry| e.font)
                    =~= self.families@.take(i as int).map_values(|e: FamilyEntry| e.font).push(h));
            }
            fonts.push(h);
            i = i + 1;
        }
        assert(self.families@.take(i as int) =~= self.families@);
        Ok(fonts)
    }

    /// Returns the names of all the families of the source, each once, in order.
    pub fn all_families(&self) -> (r: Result<Vec<String>, SelectionError>)
        ensures
            r matches Ok(v) && v@.map_values(|s: String| s@) == dedup(family_names(self.entries())),
            r matches Ok(v) && forall|i: int, j: int|
                0 <= i < j < v@.len() ==> lex_lt((#[trigger] v@[i])@, (#[trigger] v@[j])@),
            r matches Ok(v) && forall|x: Seq<char>|
                #![trigger lists_name(v@, x)]
                #![trigger has_family(self.entries(), x)]
                lists_name(v@, x) <==> has_family(self.entries(), x),
    {
        proof {
            use_type_invariant(self);
            lemma_family_names_in_order(self.families@);
            lemma_dedup_increasing(family_names(self.families@));
        }
        let ghost names = family_names(self.families@);
        let mut result: Vec<String> = Vec::new();
        let mut i: usize = 0;
        while i < self.families.len()
            invariant
                0 <= i <= self.families@.len(),
                names == family_names(self.families@),
                result@.map_values(|s: String| s@) == dedup(names.take(i as int)),
            decreases self.families@.len() - i,
        {
            let name = &self.families[i].family_name;
            let repeated = i > 0 && names_equal(
                self.families[i - 1].family_name.as_str(),
                name.as_str(),
            );
            proof {
                let t = names.take(i + 1);
                assert(t.drop_last() =~= names.take(i as int));
                assert(t.last() == name@);
                if i > 0 {
                    assert(t[t.len() - 2] == self.families@[i - 1].family_name@);
                }
            }
            if !repeated {
                let copy = name.clone();
                proof {
                    assert(result@.push(copy).map_values(|s: String| s@) =~= result@.map_values(
                        |s: String| s@,
                    ).push(copy@));
                }
                result.push(copy);
            }
            i = i + 1;
        }
        assert(names.take(i as int) =~= names);
        proof {
            let d = dedup(names);
            let v = result@;
            assert forall|i: int, j: int| 0 <= i < j < v.len() implies lex_lt((#[trigger] v[i])@, (#[trigger] v[j])@) by {
                assert(v[i]@ == d[i] && v[j]@ == d[j]);
            }
            assert forall|x: Seq<char>| lists_name(v, x) <==> has_family(self.families@, x) by {
                lemma_dedup_contains(names, x);
                if exists|i: int| 0 <= i < v.len() && (#[trigger] v[i])@ == x {
                    let k = choose|i: int| 0 <= i < v.len() && (#[trigger] v[i])@ == x;
                    assert(d[k] == x);
                    assert(d.contains(x));
                    let m = choose|m: int| 0 <= m < names.len() && names[m] == x;
                    assert(self.families@[m].family_name@ == x);
                }
                if exists|i: int| 0 <= i < self.families@.len() && (#[trigger] self.families@[i]).family_name@ == x {
                    let m = choose|i: int| 0 <= i < self.families@.len() && (#[trigger] self.families@[i]).family_name@ == x;
                    assert(names[m] == x);
                    assert(names.contains(x));
                    let k = choose|k: int| 0 <= k < d.len() && d[k] == x;
                    assert(v[k]@ == x);
                }
            }
        }
        Ok(result)
    }

    /// Looks up a font family by name and returns the handles of all the fonts in that family.
    pub fn select_family_by_name(&self, family_name: &str) -> (r: Result<FamilyHandle, SelectionError>)
        ensures
            fonts_named(self.entries(), family_name@).len() == 0 <==> r is Err,
            r is Ok <==> has_family(self.entries(), family_name@),
            r matches Err(e) ==> e == SelectionError::NotFound,
            r matches Ok(h) ==> h.fonts@ == fonts_named(self.entries(), family_name@),
    {
        proof {
            use_type_invariant(self);
        }
        let es = &self.families;
        let ghost s = es@;
        let ghost name = family_name@;
        // The first entry whose family name does not come before `family_name`.
        let mut lo: usize = 0;
        let mut hi: usize = es.len();
        while lo < hi
            invariant
                0 <= lo <= hi <= s.len(),
                s == es@,
                name == family_name@,
                names_sorted(s),
                forall|i: int| 0 <= i < lo ==> lex_lt(#[trigger] s[i].family_name@, name),
                forall|i: int| hi <= i < s.len() ==> !lex_lt(#[trigger] s[i].family_name@, name),
            decreases hi - lo,
        {
            let mid = lo + (hi - lo) / 2;
            if name_lt(es[mid].family_name.as_str(), family_name) {
                proof {
                    assert forall|i: int| 0 <= i < mid + 1 implies lex_lt(#[trigger] s[i].family_name@, name) by {
                        if i < mid {
                            let b = s[i].family_name@;
                            let c = s[mid as int].family_name@;
                            assert(!lex_lt(s[mid as int].family_name@, s[i].family_name@));
                            lemma_lex_total(b, c);
                            if b != c {
                                lemma_lex_transitive(b, c, name);
                            }
                        }
                    }
                }
                lo = mid + 1;
            } else {
                proof {
                    assert forall|i: int| mid <= i < s.len() implies !lex_lt(#[trigger] s[i].family_name@, name) by {
                        if i > mid {
                            let b = s[mid as int].family_name@;
                            let c = s[i].family_name@;
                            assert(!lex_lt(s[i].family_name@, s[mid as int].family_name@));
                            lemma_lex_total(b, c);
                            if lex_lt(c, name) && b != c {
                                lemma_lex_transitive(b, c, name);
                            }
                        }
                    }
                }
                hi = mid;
            }
        }
        let first = lo;
        let mut last = lo;
        while last < es.len()
            invariant
                first <= last <= s.len(),
                s == es@,
                name == family_name@,
                forall|i: int| first <= i < last ==> (#[trigger] s[i]).family_name@ == name,
            ensures
                first <= last <= s.len(),
                forall|i: int| first <= i < last ==> (#[trigger] s[i]).family_name@ == name,
                last < s.len() ==> s[last as int].family_name@ != name,
            decreases s.len() - last,
        {
            if !names_equal(es[last].family_name.as_str(), family_name) {
                break;
            }
            last = last + 1;
        }
        proof {
            assert forall|i: int| 0 <= i < first implies (#[trigger] s[i]).family_name@ != name by {
                lemma_lex_irreflexive(name);
            }
            assert forall|i: int| last <= i < s.len() implies (#[trigger] s[i]).family_name@ != name by {
                let b = s[last as int].family_name@;
                assert(b != name);
                assert(!lex_lt(b, name));
                lemma_lex_total(b, name);
                if i > last {
                    let c = s[i].family_name@;
                    lemma_lex_total(b, c);
                    if b != c {
                        lemma_lex_transitive(name, b, c);
                    }
                    lemma_lex_irreflexive(name);
                }
            }
            lemma_fonts_named_run(s, name, first as int, last as int);
            lemma_fonts_named_nonempty(s, name);
        }
        if first == last {
            return Err(SelectionError::NotFound);
        }
        let mut fonts: Vec<Handle> = Vec::new();
        let mut i = first;
        while i < last
            invariant
                first <= i <= last <= s.len(),
                s == es@,
                fonts@ == s.subrange(first as int, i as int).map_values(|e: FamilyEntry| e.font),
            decreases last - i,
        {
            let h = es[i].font.clone();
            proof {
                assert(s.subrange(first as int, i + 1).map_values(|e: FamilyEntry| e.font)
                    =~= s.subrange(first as int, i as int).map_values(|e: FamilyEntry| e.font).push(h));
            }
            fonts.push(h);
            i = i + 1;
        }
        Ok(FamilyHandle::from_font_handles(fonts))
    }

    /// Selects a font by PostScript name, which should be a unique identifier.
    pub fn select_by_postscript_name(&self, postscript_name: &str) -> (r: Result<Handle, SelectionError>)
        ensures
            (exists|i: int| first_with_postscript_name(self.entries(), postscript_name@, i)) <==> r is Ok,
            r matches Err(e) ==> e == SelectionError::NotFound,
            forall|i: int| first_with_postscript_name(self.entries(), postscript_name@, i) ==> r == Ok::<Handle, SelectionError>(self.entries()[i].font),
    {
        let ghost s = self.families@;
        let mut i: usize = 0;
        while i < self.families.len()
            invariant
                0 <= i <= s.len(),
                s == self.families@,
                forall|j: int| 0 <= j < i ==> (#[trigger] s[j]).postscript_name@ != postscript_name@,
            decreases s.len() - i,
        {
            if names_equal(self.families[i].postscript_name.as_str(), postscript_name) {
                assert(first_with_postscript_name(s, postscript_name@, i as int));
                assert forall|i2: int| first_with_postscript_name(s, postscript_name@, i2) implies i2 == i by {
                    if i2 < i {
                    } else if i2 > i {
                        assert(s[i as int].postscript_name@ == postscript_name@);
                    }
                }
                return Ok(self.families[i].font.clone());
            }
            i = i + 1;
        }
        assert forall|i2: int| !first_with_postscript_name(s, postscript_name@, i2) by {
            if 0 <= i2 < s.len() {
                assert(s[i2].postscript_name@ != postscript_name@);
            }
        }
        Err(SelectionError::NotFound)
    }
}

proof fn lemma_fonts_named_run(s: Seq<FamilyEntry>, name: Seq<char>, a: int, b: int)
    requires
        0 <= a <= b <= s.len(),
        forall|i: int| 0 <= i < a ==> (#[trigger] s[i]).family_name@ != name,
        forall|i: int| a <= i < b ==> (#[trigger] s[i]).family_name@ == name,
        forall|i: int| b <= i < s.len() ==> (#[trigger] s[i]).family_name@ != name,
    ensures
        fonts_named(s, name) == s.subrange(a, b).map_values(|e: FamilyEntry| e.font),
    decreases s.len(),
{
    if s.len() == 0 {
        assert(s.subrange(a, b).map_values(|e: FamilyEntry| e.font) =~= Seq::<Handle>::empty());
    } else {
        let n = s.len() as int;
        let t = s.drop_last();
        if b < n {
            lemma_fonts_named_run(t, name, a, b);
            assert(t.subrange(a, b) =~= s.subrange(a, b));
        } else if a < n {
            lemma_fonts_named_run(t, name, a, n - 1);
            assert(t.subrange(a, n - 1) =~= s.subrange(a, n - 1));
            assert(s.subrange(a, n).map_values(|e: FamilyEntry| e.font) =~= s.subrange(a, n - 1).map_values(
                |e: FamilyEntry| e.font,
            ).push(s.last().font));
        } else {
            lemma_fonts_named_run(t, name, n - 1, n - 1);
            assert(s.subrange(a, b).map_values(|e: FamilyEntry| e.font) =~= Seq::<Handle>::empty());
            assert(t.subrange(n - 1, n - 1).map_values(|e: FamilyEntry| e.font) =~= Seq::<Handle>::empty());
        }
    }
}

impl Source for MemSource {
    fn all_fonts(&self) -> (r: Result<Vec<Handle>, SelectionError>)
        ensures
            r matches Ok(v) && v@ == self.entries().map_values(|e: FamilyEntry| e.font),
    {
        MemSource::all_fonts(self)
    }

    fn all_families(&self) -> (r: Result<Vec<String>, SelectionError>)
        ensures
            r matches Ok(v) && v@.map_values(|s: String| s@) == dedup(family_names(self.entries())),
            r matches Ok(v) && forall|i: int, j: int|
                0 <= i < j < v@.len() ==> lex_lt((#[trigger] v@[i])@, (#[trigger] v@[j])@),
            r matches Ok(v) && forall|x: Seq<char>|
                #![trigger lists_name(v@, x)]
                #![trigger has_family(self.entries(), x)]
                lists_name(v@, x) <==> has_family(self.entries(), x),
    {
        MemSource::all_families(self)
    }

    fn select_family_by_name(&self, family_name: &str) -> (r: Result<FamilyHandle, SelectionError>)
        ensures
            r is Ok <==> has_family(self.entries(), family_name@),
            r matches Err(e) ==> e == SelectionError::NotFound,
            r matches Ok(h) ==> h.fonts@ == fonts_named(self.entries(), family_name@),
    {
        MemSource::select_family_by_name(self, family_name)
    }

    fn select_by_postscript_name(&self, postscript_name: &str) -> (r: Result<Handle, SelectionError>)
        ensures
            (exists|i: int| first_with_postscript_name(self.entries(), postscript_name@, i)) <==> r is Ok,
            r matches Err(e) ==> e == SelectionError::NotFound,
            forall|i: int| first_with_postscript_name(self.entries(), postscript_name@, i) ==> r == Ok::<Handle, SelectionError>(self.entries()[i].font),
    {
        MemSource::select_by_postscript_name(self, postscript_name)
    }
}

} // verus!
