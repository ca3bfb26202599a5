//! What the fontconfig source makes of the fonts that a fontconfig query lists: the sorted names
//! of all families, and where the fonts of a family are.

use vstd::prelude::*;
use crate::names::{lemma_lex_total, lemma_lex_transitive, lex_lt, name_lt};
use crate::error::FontLoadingError;
use crate::family::{Face, Family};
use crate::handle::Handle;
use crate::sources::fs::{path_from_str, path_of};
use crate::sources::mem::names_equal;

verus! {

/// A font that a fontconfig query lists: its family name, its file and its index in the file,
/// each when the query reported it.
#[derive(Debug)]
pub struct FontPattern {
    /// The family name.
    pub family: Option<String>,
    /// The path of the font file.
    pub file: Option<String>,
    /// The index of the font in the file.
    pub index: Option<i32>,
}

/// Each name comes strictly before the next: the names are sorted and none occurs twice.
pub open spec fn strictly_sorted(names: Seq<Seq<char>>) -> bool {
    forall|i: int, j: int| 0 <= i < j < names.len() ==> lex_lt(#[trigger] names[i], #[trigger] names[j])
}

/// The pattern `p` reports the family `name`.
pub open spec fn reports(p: FontPattern, name: Seq<char>) -> bool {
    p.family matches Some(f) && f@ == name
}

/// Some pattern among the first `n` reports the family `name`.
pub open spec fn reports_family(patterns: Seq<FontPattern>, n: int, name: Seq<char>) -> bool {
    exists|i: int| 0 <= i < n && reports(#[trigger] patterns[i], name)
}

/// The views of a list of names.
pub open spec fn name_views(names: Seq<String>) -> Seq<Seq<char>> {
    names.map_values(|s: String| s@)
}

/// Inserts `name` into a strictly sorted list of names unless it is there already.
fn insert_name(names: &mut Vec<String>, name: String)
    requires
        strictly_sorted(name_views(old(names)@)),
    ensures
        strictly_sorted(name_views(final(names)@)),
        forall|x: Seq<char>|
            name_views(final(names)@).contains(x) <==> (name_views(old(names)@).contains(x) || x == name@),
{
    let ghost before = name_views(names@);
    let n = names.len();
    let mut j: usize = 0;
    while j < n && name_lt(names[j].as_str(), name.as_str())
        invariant
            j <= n,
            n == names@.len(),
            before == name_views(names@),
            forall|k: int| 0 <= k < j ==> lex_lt(#[trigger] before[k], name@),
        decreases n - j,
    {
        j = j + 1;
    }
    if j < n && names_equal(names[j].as_str(), name.as_str()) {
        assert(before[j as int] == name@);
        return;
    }
    proof {
        if j < n {
            lemma_lex_total(before[j as int], name@);
        }
        assert forall|k: int| j <= k < before.len() implies lex_lt(name@, #[trigger] before[k]) by {
            if k > j {
                lemma_lex_transitive(name@, before[j as int], before[k]);
            }
        }
    }
    names.insert(j, name);
    let ghost after = name_views(names@);
    assert(after =~= before.insert(j as int, name@));
    assert forall|a: int, b: int| 0 <= a < b < after.len() implies lex_lt(#[trigger] after[a], #[trigger] after[b]) by {
        if b < j {
        } else if b == j {
        } else if a < j {
            lemma_lex_transitive(before[a], name@, before[b - 1]);
        } else if a == j {
        } else {
        }
    }
    assert forall|x: Seq<char>| after.contains(x) <==> (before.contains(x) || x == name@) by {
        if after.contains(x) {
            let k = choose|k: int| 0 <= k < after.len() && after[k] == x;
            if k < j {
                assert(before[k] == x);
            } else if k > j {
                assert(before[k - 1] == x);
            }
        }
        if before.contains(x) {
            let k = choose|k: int| 0 <= k < before.len() && before[k] == x;
            if k < j {
                assert(after[k] == x);
            } else {
                assert(after[k + 1] == x);
            }
        }
        if x == name@ {
            assert(after[j as int] == x);
        }
    }
}

/// Returns the names of all the families that the listed fonts report, sorted, each once.
pub fn all_family_names(patterns: &[FontPattern]) -> (r: Vec<String>)
    ensures
        strictly_sorted(name_views(r@)),
        forall|name: Seq<char>|
            name_views(r@).contains(name) <==> reports_family(patterns@, patterns@.len() as int, name),
{
    let mut names: Vec<String> = Vec::new();
    let n = patterns.len();
    let mut i: usize = 0;
    while i < n
        invariant
            i <= n,
            n == patterns@.len(),
            strictly_sorted(name_views(names@)),
            forall|name: Seq<char>|
                name_views(names@).contains(name) <==> reports_family(patterns@, i as int, name),
        decreases n - i,
    {
        let ghost before = names@;
        match &patterns[i].family {
            Some(family) => {
                insert_name(&mut names, family.clone());
                assert forall|name: Seq<char>|
                    name_views(names@).contains(name) <==> reports_family(patterns@, i + 1, name) by {
                    if reports_family(patterns@, i + 1, name) {
                        let k = choose|k: int| 0 <= k < i + 1 && reports(#[trigger] patterns@[k], name);
                        if k < i {
                            assert(reports_family(patterns@, i as int, name));
                        }
                    }
                    if name_views(before).contains(name) {
                        assert(reports_family(patterns@, i as int, name));
                        let k = choose|k: int| 0 <= k < i && reports(#[trigger] patterns@[k], name);
                        assert(0 <= k < i + 1 && reports(patterns@[k], name));
                    }
                    if name == family@ {
                        assert(reports(patterns@[i as int], name));
                    }
                }
            },
            None => {
                assert forall|name: Seq<char>|
                    name_views(names@).contains(name) <==> reports_family(patterns@, i + 1, name) by {
                    if reports_family(patterns@, i + 1, name) {
                        let k = choose|k: int| 0 <= k < i + 1 && reports(#[trigger] patterns@[k], name);
                        assert(k < i);
                        assert(reports_family(patterns@, i as int, name));
                    }
                    if reports_family(patterns@, i as int, name) {
                        let k = choose|k: int| 0 <= k < i && reports(#[trigger] patterns@[k], name);
                        assert(0 <= k < i + 1 && reports(patterns@[k], name));
                    }
                }
            },
        }
        i = i + 1;
    }
    names
}

/// The files and indices of the listed fonts that report both, in order, the index taken as an
/// unsigned number.
pub open spec fn locations_of(patterns: Seq<FontPattern>) -> Seq<(Seq<char>, u32)>
    decreases patterns.len(),
{
    if patterns.len() == 0 {
        Seq::empty()
    } else {
        let p = patterns.last();
        let before = locations_of(patterns.drop_last());
        match (p.file, p.index) {
            (Some(file), Some(index)) => before.push((file@, index as u32)),
            _ => before,
        }
    }
}

/// Returns where the listed fonts are: the file and index of each font that reports both, in
/// order.
pub fn font_locations(patterns: &[FontPattern]) -> (r: Vec<(String, u32)>)
    ensures
        r@.map_values(|l: (String, u32)| (l.0@, l.1)) == locations_of(patterns@),
{
    let mut locations: Vec<(String, u32)> = Vec::new();
    let n = patterns.len();
    let mut i: usize = 0;
    while i < n
        invariant
            i <= n,
            n == patterns@.len(),
            locations@.map_values(|l: (String, u32)| (l.0@, l.1)) == locations_of(patterns@.take(i as int)),
        decreases n - i,
    {
        assert(patterns@.take(i + 1).drop_last() =~= patterns@.take(i as int));
        assert(patterns@.take(i + 1).last() == patterns@[i as int]);
        let p = &patterns[i];
        match (&p.file, &p.index) {
            (Some(file), Some(index)) => {
                let ghost before = locations@;
                locations.push((file.clone(), *index as u32));
                assert(locations@.map_values(|l: (String, u32)| (l.0@, l.1)) =~= before.map_values(
                    |l: (String, u32)| (l.0@, l.1),
                ).push((file@, *index as u32)));
            },
            _ => {},
        }
        i = i + 1;
    }
    assert(patterns@.take(n as int) =~= patterns@);
    locations
}

/// The handles among `fonts` whose family name is `name`, in order.
pub open spec fn handles_named(fonts: Seq<(String, Handle)>, name: Seq<char>) -> Seq<Handle>
    decreases fonts.len(),
{
    if fonts.len() == 0 {
        Seq::empty()
    } else {
        let before = handles_named(fonts.drop_last(), name);
        if fonts.last().0@ == name {
            before.push(fonts.last().1)
        } else {
            before
        }
    }
}

/// `groups` gathers `fonts` by family name: one group per name, no name twice, each group
/// holding the handles of its name in order.
pub open spec fn grouped(fonts: Seq<(String, Handle)>, groups: Seq<(String, Vec<Handle>)>) -> bool {
    &&& forall|a: int, b: int| 0 <= a < b < groups.len() ==> (#[trigger] groups[a]).0@ != (#[trigger] groups[b]).0@
    &&& forall|a: int| 0 <= a < groups.len() ==> (#[trigger] groups[a]).1@ == handles_named(fonts, groups[a].0@)
    &&& forall|name: Seq<char>|
        #![trigger has_font_named(fonts, name)]
        #![trigger has_group(groups, name)]
        has_font_named(fonts, name) <==> has_group(groups, name)
}

/// Some font of `fonts` has the family name `name`.
pub open spec fn has_font_named(fonts: Seq<(String, Handle)>, name: Seq<char>) -> bool {
    exists|k: int| 0 <= k < fonts.len() && (#[trigger] fonts[k]).0@ == name
}

/// Some group of `groups` has the name `name`.
pub open spec fn has_group(groups: Seq<(String, Vec<Handle>)>, name: Seq<char>) -> bool {
    exists|a: int| 0 <= a < groups.len() && (#[trigger] groups[a]).0@ == name
}

/// Gathers the listed fonts, each given with its family name, into families: one per name, in
/// the order in which the names first occur, each holding the handles of its fonts in order.
pub fn group_by_family(fonts: &[(String, Handle)]) -> (r: Vec<(String, Vec<Handle>)>)
    ensures
        grouped(fonts@, r@),
{
    let mut groups: Vec<(String, Vec<Handle>)> = Vec::new();
    let n = fonts.len();
    let mut i: usize = 0;
    while i < n
        invariant
            i <= n,
            n == fonts@.len(),
            grouped(fonts@.take(i as int), groups@),
        decreases n - i,
    {
        let ghost before = fonts@.take(i as int);
        let ghost after = fonts@.take(i + 1);
        assert(after.drop_last() =~= before);
        assert(after.last() == fonts@[i as int]);
        let name = &fonts[i].0;
        let handle = fonts[i].1.clone();
        let m = groups.len();
        let mut j: usize = 0;
        while j < m && !names_equal(groups[j].0.as_str(), name.as_str())
            invariant
                j <= m,
                m == groups@.len(),
                forall|a: int| 0 <= a < j ==> (#[trigger] groups@[a]).0@ != name@,
            decreases m - j,
        {
            j = j + 1;
        }
        let ghost old_groups = groups@;
        assert forall|nm: Seq<char>| nm != name@ implies handles_named(after, nm) == handles_named(before, nm) by {}
        assert(handles_named(after, name@) == handles_named(before, name@).push(handle));
        if j < m {
            let (group_name, mut handles) = groups.remove(j);
            handles.push(handle);
            groups.insert(j, (group_name, handles));
            assert(groups@ =~= old_groups.update(j as int, groups@[j as int]));
            assert(old_groups[j as int].0@ == name@);
            assert(groups@[j as int].0 == old_groups[j as int].0);
            assert forall|a: int| 0 <= a < groups@.len() implies (#[trigger] groups@[a]).0 == old_groups[a].0 by {}
            assert forall|name2: Seq<char>| has_font_named(after, name2) <==> has_group(groups@, name2) by {
                if exists|k: int| 0 <= k < after.len() && (#[trigger] after[k]).0@ == name2 {
                    let k = choose|k: int| 0 <= k < after.len() && (#[trigger] after[k]).0@ == name2;
                    if k < i {
                        assert(before[k] == after[k]);
                        assert(has_font_named(before, name2));
                        let a = choose|a: int| 0 <= a < old_groups.len() && (#[trigger] old_groups[a]).0@ == name2;
                        assert(groups@[a].0@ == name2);
                    } else {
                        assert(groups@[j as int].0@ == name2);
                    }
                }
                if exists|a: int| 0 <= a < groups@.len() && (#[trigger] groups@[a]).0@ == name2 {
                    let a = choose|a: int| 0 <= a < groups@.len() && (#[trigger] groups@[a]).0@ == name2;
                    assert(old_groups[a].0@ == name2);
                    assert(has_group(old_groups, name2));
                    let k = choose|k: int| 0 <= k < before.len() && (#[trigger] before[k]).0@ == name2;
                    assert(after[k] == before[k]);
                }
            }
        } else {
            let group_name = name.clone();
            let mut handles: Vec<Handle> = Vec::new();
            handles.push(handle);
            assert(!has_font_named(before, name@)) by {
                if has_font_named(before, name@) {
                    assert(has_group(old_groups, name@));
                    let a = choose|a: int| 0 <= a < old_groups.len() && (#[trigger] old_groups[a]).0@ == name@;
                    assert(old_groups[a].0@ != name@);
                }
            }
            proof {
                lemma_handles_named_absent(before, name@);
            }
            assert(handles@ =~= handles_named(after, name@));
            groups.push((group_name, handles));
            assert forall|name2: Seq<char>| has_font_named(after, name2) <==> has_group(groups@, name2) by {
                if exists|k: int| 0 <= k < after.len() && (#[trigger] after[k]).0@ == name2 {
                    let k = choose|k: int| 0 <= k < after.len() && (#[trigger] after[k]).0@ == name2;
                    if k < i {
                        assert(before[k] == after[k]);
                        assert(has_font_named(before, name2));
                        let a = choose|a: int| 0 <= a < old_groups.len() && (#[trigger] old_groups[a]).0@ == name2;
                        assert(groups@[a].0@ == name2);
                    } else {
                        assert(groups@[m as int].0@ == name2);
                    }
                }
                if exists|a: int| 0 <= a < groups@.len() && (#[trigger] groups@[a]).0@ == name2 {
                    let a = choose|a: int| 0 <= a < groups@.len() && (#[trigger] groups@[a]).0@ == name2;
                    if a < m {
                        assert(old_groups[a].0@ == name2);
                        assert(has_group(old_groups, name2));
                        let k = choose|k: int| 0 <= k < before.len() && (#[trigger] before[k]).0@ == name2;
                        assert(after[k] == before[k]);
                    } else {
                        assert(after[i as int].0@ == name2);
                    }
                }
            }
        }
        i = i + 1;
    }
    assert(fonts@.take(n as int) =~= fonts@);
    groups
}

/// No handle is named after a family that no font has.
proof fn lemma_handles_named_absent(fonts: Seq<(String, Handle)>, name: Seq<char>)
    requires
        !has_font_named(fonts, name),
    ensures
        handles_named(fonts, name) == Seq::<Handle>::empty(),
    decreases fonts.len(),
{
    if fonts.len() > 0 {
        let t = fonts.drop_last();
        assert forall|k: int| 0 <= k < t.len() implies (#[trigger] t[k]).0@ != name by {
            assert(t[k] == fonts[k]);
        }
        lemma_handles_named_absent(t, name);
        assert(fonts[fonts.len() - 1].0@ != name);
    }
}

/// The faces that loaded among the answers of a loader, in order.
pub open spec fn loaded_faces<F>(answers: Seq<Result<F, FontLoadingError>>) -> Seq<F>
    decreases answers.len(),
{
    if answers.len() == 0 {
        Seq::empty()
    } else {
        let before = loaded_faces(answers.drop_last());
        match answers.last() {
            Ok(face) => before.push(face),
            Err(_) => before,
        }
    }
}

/// `answers` are what the loader `F` answered, in order, for the fonts at `locations`.
pub open spec fn answered_for<F: Face>(locations: Seq<(String, u32)>, answers: Seq<Result<F, FontLoadingError>>) -> bool {
    &&& answers.len() == locations.len()
    &&& forall|k: int|
        0 <= k < locations.len() ==> call_ensures(
            F::from_path,
            (&path_of(locations[k].0@), locations[k].1),
            #[trigger] answers[k],
        )
}

/// Loads the fonts at the given files and indices with the loader `F` into a family, in order,
/// passing over those that fail to load.
pub fn load_located_fonts<F: Face>(locations: &[(String, u32)]) -> (r: Family<F>)
    ensures
        exists|answers: Seq<Result<F, FontLoadingError>>|
            #[trigger] answered_for::<F>(locations@, answers) && r.fonts@ == loaded_faces(answers),
{
    let mut fonts: Vec<F> = Vec::new();
    let ghost mut answers: Seq<Result<F, FontLoadingError>> = Seq::empty();
    let n = locations.len();
    let mut i: usize = 0;
    while i < n
        invariant
            i <= n,
            n == locations@.len(),
            answered_for::<F>(locations@.take(i as int), answers),
            fonts@ == loaded_faces(answers),
        decreases n - i,
    {
        let path = path_from_str(locations[i].0.as_str());
        let answer = F::from_path(&path, locations[i].1);
        assert(call_ensures(F::from_path, (&path_of(locations@[i as int].0@), locations@[i as int].1), answer));
        let ghost prev = answers;
        proof {
            answers = answers.push(answer);
            assert(answers.drop_last() =~= prev);
        }
        match answer {
            Ok(face) => fonts.push(face),
            Err(_) => {},
        }
        assert forall|k: int| 0 <= k < i + 1 implies call_ensures(
            F::from_path,
            (&path_of(locations@.take(i + 1)[k].0@), locations@.take(i + 1)[k].1),
            #[trigger] answers[k],
        ) by {
            if k < i {
                assert(locations@.take(i + 1)[k] == locations@.take(i as int)[k]);
                assert(answers[k] == prev[k]);
            }
        }
        i = i + 1;
    }
    assert(locations@.take(n as int) =~= locations@);
    Family::from_fonts(fonts)
}

} // verus!
