//! A source that encapsulates multiple sources and allows them to be queried as a group.
//!
//! This is useful when an application wants a library of fonts consisting of the installed system
//! fonts plus some other application-supplied fonts.

use vstd::prelude::*;
use crate::error::SelectionError;
use crate::handle::{FamilyHandle, Handle};
use crate::family::Face;
use crate::properties::{Class, Properties};
use crate::source::{best_match_in_family, family_matches_nothing, select_best_match_with_loader, Source};

verus! {

/// Whether an answer of one source settles a lookup: anything but "not found" does.
pub open spec fn settles<T>(answer: Result<T, SelectionError>) -> bool {
    !(answer matches Err(SelectionError::NotFound))
}

/// The outcome of asking the sources in turn: the first answer that settles the lookup, or
/// "not found" when none does.
pub open spec fn first_settling<T>(answers: Seq<Result<T, SelectionError>>) -> Result<T, SelectionError>
    decreases answers.len(),
{
    if answers.len() == 0 {
        Err(SelectionError::NotFound)
    } else {
        let before = first_settling(answers.drop_last());
        if settles(before) {
            before
        } else {
            answers.last()
        }
    }
}

/// The outcome of gathering lists from the sources in turn: all their items in order, or the
/// first error.
pub open spec fn gathered<T>(answers: Seq<Result<Vec<T>, SelectionError>>) -> Result<Seq<T>, SelectionError>
    decreases answers.len(),
{
    if answers.len() == 0 {
        Ok(Seq::empty())
    } else {
        match gathered(answers.drop_last()) {
            Err(e) => Err(e),
            Ok(items) => match answers.last() {
                Ok(v) => Ok(items + v@),
                Err(e) => Err(e),
            },
        }
    }
}

/// `r` is what gathering the lists of `answers` gives, the items taken by value.
pub open spec fn gathers_to<T>(answers: Seq<Result<Vec<T>, SelectionError>>, r: Result<Vec<T>, SelectionError>) -> bool {
    match r {
        Ok(v) => gathered(answers) == Ok::<Seq<T>, SelectionError>(v@),
        Err(e) => gathered(answers) == Err::<Seq<T>, SelectionError>(e),
    }
}

/// `answers` were given by the first of `n` sources, in order, and gathering stopped early only
/// at an error.
pub open spec fn gathered_in_turn<T>(answers: Seq<Result<Vec<T>, SelectionError>>, n: int) -> bool {
    &&& answers.len() <= n
    &&& forall|i: int| 0 <= i < answers.len() - 1 ==> !(#[trigger] answers[i] is Err)
    &&& answers.len() < n ==> answers.len() > 0 && answers.last() is Err
}

/// `answers` were given by the first of `n` sources, in order, and asking stopped early only at
/// an answer that settles the lookup.
pub open spec fn asked_in_turn<T>(answers: Seq<Result<T, SelectionError>>, n: int) -> bool {
    &&& answers.len() <= n
    &&& forall|i: int| 0 <= i < answers.len() - 1 ==> !settles(#[trigger] answers[i])
    &&& answers.len() < n ==> answers.len() > 0 && settles(answers.last())
}

/// A lookup over several sources gives the answer of the first source whose answer settles
/// it, and "not found" when none does.
pub proof fn lemma_first_settling_answer<T>(answers: Seq<Result<T, SelectionError>>)
    ensures
        (forall|i: int| 0 <= i < answers.len() ==> !settles(#[trigger] answers[i]))
            ==> first_settling(answers) == Err::<T, SelectionError>(SelectionError::NotFound),
        forall|k: int|
            0 <= k < answers.len() && settles(#[trigger] answers[k]) && (forall|j: int|
                0 <= j < k ==> !settles(#[trigger] answers[j])) ==> first_settling(answers) == answers[k],
    decreases answers.len(),
{
    if answers.len() > 0 {
        let before = answers.drop_last();
        lemma_first_settling_answer(before);
        assert forall|k: int|
            0 <= k < answers.len() && settles(#[trigger] answers[k]) && (forall|j: int|
                0 <= j < k ==> !settles(#[trigger] answers[j])) implies first_settling(answers) == answers[k] by {
            if k < answers.len() - 1 {
                assert(before[k] == answers[k]);
                assert forall|j: int| 0 <= j < k implies !settles(#[trigger] before[j]) by {
                    assert(before[j] == answers[j]);
                }
            } else {
                assert forall|i: int| 0 <= i < before.len() implies !settles(#[trigger] before[i]) by {
                    assert(before[i] == answers[i]);
                }
            }
        }
        if forall|i: int| 0 <= i < answers.len() ==> !settles(#[trigger] answers[i]) {
            assert forall|i: int| 0 <= i < before.len() implies !settles(#[trigger] before[i]) by {
                assert(before[i] == answers[i]);
            }
        }
    }
}

/// Gathering lists from several sources succeeds exactly when every source gives its list.
pub proof fn lemma_gathered_ok<T>(answers: Seq<Result<Vec<T>, SelectionError>>)
    ensures
        gathered(answers) is Ok <==> forall|i: int| 0 <= i < answers.len() ==> (#[trigger] answers[i]) is Ok,
    decreases answers.len(),
{
    if answers.len() > 0 {
        let before = answers.drop_last();
        lemma_gathered_ok(before);
        if forall|i: int| 0 <= i < answers.len() ==> (#[trigger] answers[i]) is Ok {
            assert forall|i: int| 0 <= i < before.len() implies (#[trigger] before[i]) is Ok by {
                assert(before[i] == answers[i]);
            }
        }
        if gathered(answers) is Ok {
            assert forall|i: int| 0 <= i < answers.len() implies (#[trigger] answers[i]) is Ok by {
                if i < answers.len() - 1 {
                    assert(before[i] == answers[i]);
                }
            }
        }
    }
}

/// Adds the answer of one more source to a gathering: the items are appended, or the error is
/// returned.
pub fn gather_step<T>(items: &mut Vec<T>, answer: Result<Vec<T>, SelectionError>) -> (r: Option<SelectionError>)
    ensures
        r == (match answer {
            Ok(_) => None::<SelectionError>,
            Err(e) => Some(e),
        }),
        answer matches Ok(v) ==> final(items)@ == old(items)@ + v@,
        answer is Err ==> final(items)@ == old(items)@,
{
    match answer {
        Ok(mut v) => {
            items.append(&mut v);
            None
        },
        Err(e) => Some(e),
    }
}

/// `a` is an answer that source `s` may give when asked for all its fonts.
pub open spec fn fonts_answer_from<S: ?Sized + Source>(s: &S, a: Result<Vec<Handle>, SelectionError>) -> bool {
    call_ensures(S::all_fonts, (s,), a)
}

/// `a` is an answer that source `s` may give when asked for all its family names.
pub open spec fn families_answer_from<S: ?Sized + Source>(s: &S, a: Result<Vec<String>, SelectionError>) -> bool {
    call_ensures(S::all_families, (s,), a)
}

/// `a` is an answer that source `s` may give when asked for the family named `name`.
pub open spec fn family_answer_from<S: ?Sized + Source>(s: &S, name: &str, a: Result<FamilyHandle, SelectionError>) -> bool {
    call_ensures(S::select_family_by_name, (s, name), a)
}

/// `a` is an answer that source `s` may give when asked for the font with the PostScript name
/// `name`.
pub open spec fn postscript_answer_from<S: ?Sized + Source>(s: &S, name: &str, a: Result<Handle, SelectionError>) -> bool {
    call_ensures(S::select_by_postscript_name, (s, name), a)
}

/// Asks a source for all its fonts.
fn ask_fonts<S: ?Sized + Source>(s: &S) -> (r: Result<Vec<Handle>, SelectionError>)
    ensures
        fonts_answer_from(s, r),
{
    s.all_fonts()
}

/// Asks a source for all its family names.
fn ask_families<S: ?Sized + Source>(s: &S) -> (r: Result<Vec<String>, SelectionError>)
    ensures
        families_answer_from(s, r),
{
    s.all_families()
}

/// Asks a source for the family named `name`.
fn ask_family<S: ?Sized + Source>(s: &S, name: &str) -> (r: Result<FamilyHandle, SelectionError>)
    ensures
        family_answer_from(s, name, r),
{
    s.select_family_by_name(name)
}

/// Asks a source for the font with the PostScript name `name`.
fn ask_postscript<S: ?Sized + Source>(s: &S, name: &str) -> (r: Result<Handle, SelectionError>)
    ensures
        postscript_answer_from(s, name, r),
{
    s.select_by_postscript_name(name)
}

/// A source that encapsulates multiple sources and allows them to be queried as a group.
///
/// This is useful when an application wants a library of fonts consisting of the installed system
/// fonts plus some other application-supplied fonts.
pub struct MultiSource {
    subsources: Vec<Box<dyn Source>>,
}

impl MultiSource {
    /// The sources that this source asks, in order.
    pub closed spec fn sources(self) -> Seq<Box<dyn Source>> {
        self.subsources@
    }

    /// Creates a new source that contains all the fonts in the supplied sources.
    pub fn from_sources(subsources: Vec<Box<dyn Source>>) -> (r: MultiSource)
        ensures
            r.sources() == subsources@,
    {
        MultiSource { subsources }
    }

    /// Returns paths of all fonts installed on the system: those of each source in turn, or the
    /// first error that a source gives.
    pub fn all_fonts(&self) -> (r: Result<Vec<Handle>, SelectionError>)
        ensures
            exists|answers: Seq<Result<Vec<Handle>, SelectionError>>|
                gathered_in_turn(answers, self.sources().len() as int) && gathers_to(answers, r)
                    && forall|k: int|
                    0 <= k < answers.len() ==> fonts_answer_from(&*self.sources()[k], #[trigger] answers[k]),
    {
        let mut handles: Vec<Handle> = Vec::new();
        let ghost mut answers: Seq<Result<Vec<Handle>, SelectionError>> = Seq::empty();
        let n = self.subsources.len();
        let mut i: usize = 0;
        while i < n
            invariant
                n == self.subsources@.len(),
                i <= n,
                answers.len() == i,
                gathered(answers) == Ok::<Seq<Handle>, SelectionError>(handles@),
                forall|k: int|
                    0 <= k < answers.len() ==> fonts_answer_from(&*self.subsources@[k], #[trigger] answers[k]),
                forall|k: int| 0 <= k < answers.len() ==> !(#[trigger] answers[k] is Err),
            decreases n - i,
        {
            let answer = ask_fonts(&*self.subsources[i]);
            proof {
                let prev = answers;
                answers = answers.push(answer);
                assert(answers.drop_last() =~= prev);
                assert forall|k: int| 0 <= k < answers.len() implies fonts_answer_from(&*self.subsources@[k], #[trigger] answers[k]) by {
                    if k < i {
                        assert(answers[k] == prev[k]);
                    }
                }
            }
            match gather_step(&mut handles, answer) {
                Some(e) => {
                    assert(gathered_in_turn(answers, n as int) && gathers_to(answers, Err::<Vec<Handle>, SelectionError>(e)));
                    return Err(e);
                },
                None => {},
            }
            i = i + 1;
        }
        assert(gathered_in_turn(answers, n as int) && gathers_to(answers, Ok::<Vec<Handle>, SelectionError>(handles)));
        Ok(handles)
    }

    /// Returns the names of all families installed on the system: those of each source in turn,
    /// or the first error that a source gives.
    pub fn all_families(&self) -> (r: Result<Vec<String>, SelectionError>)
        ensures
            exists|answers: Seq<Result<Vec<String>, SelectionError>>|
                gathered_in_turn(answers, self.sources().len() as int) && gathers_to(answers, r)
                    && forall|k: int|
                    0 <= k < answers.len() ==> families_answer_from(&*self.sources()[k], #[trigger] answers[k]),
    {
        let mut families: Vec<String> = Vec::new();
        let ghost mut answers: Seq<Result<Vec<String>, SelectionError>> = Seq::empty();
        let n = self.subsources.len();
        let mut i: usize = 0;
        while i < n
            invariant
                n == self.subsources@.len(),
                i <= n,
                answers.len() == i,
                gathered(answers) == Ok::<Seq<String>, SelectionError>(families@),
                forall|k: int|
                    0 <= k < answers.len() ==> families_answer_from(&*self.subsources@[k], #[trigger] answers[k]),
                forall|k: int| 0 <= k < answers.len() ==> !(#[trigger] answers[k] is Err),
            decreases n - i,
        {
            let answer = ask_families(&*self.subsources[i]);
            proof {
                let prev = answers;
                answers = answers.push(answer);
                assert(answers.drop_last() =~= prev);
                assert forall|k: int| 0 <= k < answers.len() implies families_answer_from(&*self.subsources@[k], #[trigger] answers[k]) by {
                    if k < i {
                        assert(answers[k] == prev[k]);
                    }
                }
            }
            match gather_step(&mut families, answer) {
                Some(e) => {
                    assert(gathered_in_turn(answers, n as int) && gathers_to(answers, Err::<Vec<String>, SelectionError>(e)));
                    return Err(e);
                },
                None => {},
            }
            i = i + 1;
        }
        assert(gathered_in_turn(answers, n as int) && gathers_to(answers, Ok::<Vec<String>, SelectionError>(families)));
        Ok(families)
    }

    /// Looks up a font family by name and returns the handles of all the fonts in that family:
    /// the answer of the first source that does not answer "not found", or "not found".
    pub fn select_family_by_name(&self, family_name: &str) -> (r: Result<FamilyHandle, SelectionError>)
        ensures
            exists|answers: Seq<Result<FamilyHandle, SelectionError>>|
                asked_in_turn(answers, self.sources().len() as int) && r == first_settling(answers)
                    && forall|k: int|
                    0 <= k < answers.len() ==> family_answer_from(
                        &*self.sources()[k],
                        family_name,
                        #[trigger] answers[k],
                    ),
    {
        let ghost mut answers: Seq<Result<FamilyHandle, SelectionError>> = Seq::empty();
        let n = self.subsources.len();
        let mut i: usize = 0;
        while i < n
            invariant
                n == self.subsources@.len(),
                i <= n,
                answers.len() == i,
                first_settling(answers) == Err::<FamilyHandle, SelectionError>(SelectionError::NotFound),
                forall|k: int|
                    0 <= k < answers.len() ==> family_answer_from(
                        &*self.subsources@[k],
                        family_name,
                        #[trigger] answers[k],
                    ),
                forall|k: int| 0 <= k < answers.len() ==> !settles(#[trigger] answers[k]),
            decreases n - i,
        {
            let answer = ask_family(&*self.subsources[i], family_name);
            proof {
                let prev = answers;
                answers = answers.push(answer);
                assert(answers.drop_last() =~= prev);
                assert forall|k: int| 0 <= k < answers.len() implies family_answer_from(&*self.subsources@[k], family_name, #[trigger] answers[k]) by {
                    if k < i {
                        assert(answers[k] == prev[k]);
                    }
                }
            }
            match answer {
                Err(SelectionError::NotFound) => {},
                _ => {
                    assert(asked_in_turn(answers, n as int));
                    return answer;
                },
            }
            i = i + 1;
        }
        assert(asked_in_turn(answers, n as int));
        Err(SelectionError::NotFound)
    }

    /// Selects a font by PostScript name, which should be a unique identifier: the answer of the
    /// first source that does not answer "not found", or "not found".
    pub fn select_by_postscript_name(&self, postscript_name: &str) -> (r: Result<Handle, SelectionError>)
        ensures
            exists|answers: Seq<Result<Handle, SelectionError>>|
                asked_in_turn(answers, self.sources().len() as int) && r == first_settling(answers)
                    && forall|k: int|
                    0 <= k < answers.len() ==> postscript_answer_from(
                        &*self.sources()[k],
                        postscript_name,
                        #[trigger] answers[k],
                    ),
    {
        let ghost mut answers: Seq<Result<Handle, SelectionError>> = Seq::empty();
        let n = self.subsources.len();
        let mut i: usize = 0;
        while i < n
            invariant
                n == self.subsources@.len(),
                i <= n,
                answers.len() == i,
                first_settling(answers) == Err::<Handle, SelectionError>(SelectionError::NotFound),
                forall|k: int|
                    0 <= k < answers.len() ==> postscript_answer_from(
                        &*self.subsources@[k],
                        postscript_name,
                        #[trigger] answers[k],
                    ),
                forall|k: int| 0 <= k < answers.len() ==> !settles(#[trigger] answers[k]),
            decreases n - i,
        {
            let answer = ask_postscript(&*self.subsources[i], postscript_name);
            proof {
                let prev = answers;
                answers = answers.push(answer);
                assert(answers.drop_last() =~= prev);
                assert forall|k: int| 0 <= k < answers.len() implies postscript_answer_from(&*self.subsources@[k], postscript_name, #[trigger] answers[k]) by {
                    if k < i {
                        assert(answers[k] == prev[k]);
                    }
                }
            }
            match answer {
                Err(SelectionError::NotFound) => {},
                _ => {
                    assert(asked_in_turn(answers, n as int));
                    return answer;
                },
            }
            i = i + 1;
        }
        assert(asked_in_turn(answers, n as int));
        Err(SelectionError::NotFound)
    }
}

impl MultiSource {
    /// Performs font matching according to the CSS Fonts Level 3 specification and returns the
    /// handle of the font chosen, loading fonts with the loader `F` to learn their properties:
    /// the families are tried in turn, each looked up in the sources as
    /// `select_family_by_spec` does, and the best match among the fonts of the first family that
    /// is found and whose fonts all load is chosen.
    pub fn select_best_match<F: Face>(&self, family_names: &[Class], properties: &Properties) -> (r: Result<
        Handle,
        SelectionError,
    >)
        ensures
            r matches Err(e) ==> e == SelectionError::NotFound && forall|k: int|
                0 <= k < family_names@.len() ==> family_matches_nothing::<MultiSource, F>(
                    self,
                    &#[trigger] family_names@[k],
                ),
            r matches Ok(h) ==> exists|k: int|
                0 <= k < family_names@.len() && best_match_in_family::<MultiSource, F>(
                    self,
                    &#[trigger] family_names@[k],
                    *properties,
                    h,
                ) && forall|j: int|
                    0 <= j < k ==> family_matches_nothing::<MultiSource, F>(self, &#[trigger] family_names@[j]),
    {
        select_best_match_with_loader::<MultiSource, F>(self, family_names, properties)
    }
}

impl Source for MultiSource {
    fn all_fonts(&self) -> (r: Result<Vec<Handle>, SelectionError>)
        ensures
            exists|answers: Seq<Result<Vec<Handle>, SelectionError>>|
                gathered_in_turn(answers, self.sources().len() as int) && gathers_to(answers, r)
                    && forall|k: int|
                    0 <= k < answers.len() ==> fonts_answer_from(&*self.sources()[k], #[trigger] answers[k]),
    {
        MultiSource::all_fonts(self)
    }

    fn all_families(&self) -> (r: Result<Vec<String>, SelectionError>)
        ensures
            exists|answers: Seq<Result<Vec<String>, SelectionError>>|
                gathered_in_turn(answers, self.sources().len() as int) && gathers_to(answers, r)
                    && forall|k: int|
                    0 <= k < answers.len() ==> families_answer_from(&*self.sources()[k], #[trigger] answers[k]),
    {
        MultiSource::all_families(self)
    }

    fn select_family_by_name(&self, family_name: &str) -> (r: Result<FamilyHandle, SelectionError>)
        ensures
            exists|answers: Seq<Result<FamilyHandle, SelectionError>>|
                asked_in_turn(answers, self.sources().len() as int) && r == first_settling(answers)
                    && forall|k: int|
                    0 <= k < answers.len() ==> family_answer_from(
                        &*self.sources()[k],
                        family_name,
                        #[trigger] answers[k],
                    ),
    {
        MultiSource::select_family_by_name(self, family_name)
    }

    fn select_by_postscript_name(&self, postscript_name: &str) -> (r: Result<Handle, SelectionError>)
        ensures
            exists|answers: Seq<Result<Handle, SelectionError>>|
                asked_in_turn(answers, self.sources().len() as int) && r == first_settling(answers)
                    && forall|k: int|
                    0 <= k < answers.len() ==> postscript_answer_from(
                        &*self.sources()[k],
                        postscript_name,
                        #[trigger] answers[k],
                    ),
    {
        MultiSource::select_by_postscript_name(self, postscript_name)
    }
}

} // verus!
