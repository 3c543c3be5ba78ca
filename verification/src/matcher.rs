//! Which candidate packages the manifests declare.
//!
//! A manifest declares a package when one of its lines matches the pattern
//! that the manifest's format builds from the package's name. The matching
//! itself is done by the `regex` crate.

use crate::manifest::ManifestFormat;
use crate::names::{texts, NameSet};
use regex::Regex;
use vstd::prelude::*;

verus! {

/// `regex::Regex`, a compiled regular expression. Nothing inside it is seen
/// here.
#[verifier::external_type_specification]
#[verifier::external_body]
pub struct ExRegex(regex::Regex);

/// `regex::Error`, why a text was refused as a regular expression. Nothing
/// inside it is seen here.
#[verifier::external_type_specification]
#[verifier::external_body]
pub struct ExRegexError(regex::Error);

/// The expression that `pattern` compiles to; `None` where it is refused,
/// for its syntax or for the limits that the `regex` crate sets on the size
/// of an expression: what `Regex::new` returns for it.
pub uninterp spec fn regex_of(pattern: Seq<char>) -> Option<Regex>;

/// Whether the expression `re` matches somewhere in `haystack`: what
/// `Regex::is_match` returns.
pub uninterp spec fn regex_matches(re: Regex, haystack: Seq<char>) -> bool;

/// Calls `Regex::new`. Trusted: whether a text compiles, and the expression
/// it compiles to, depend on the text alone.
#[verifier::external_body]
fn compile(pattern: &str) -> (compiled: Result<Regex, regex::Error>)
    ensures
        match compiled {
            Ok(re) => regex_of(pattern@) == Some(re),
            Err(_) => regex_of(pattern@) is None,
        },
{
    Regex::new(pattern)
}

/// Calls `Regex::is_match`. Trusted: the answer depends on the expression and
/// the line alone.
#[verifier::external_body]
fn is_match(re: &Regex, line: &str) -> (found: bool)
    ensures
        found == regex_matches(*re, line@),
{
    re.is_match(line)
}

/// One of `lines` matches the expression `re`.
pub open spec fn some_line_matches(re: Regex, lines: Seq<Seq<char>>) -> bool {
    exists|i: int| 0 <= i < lines.len() && regex_matches(re, #[trigger] lines[i])
}

/// A manifest as it was read: its format and its lines.
#[derive(Debug)]
pub struct Manifest {
    /// The format that the file's name gave it.
    pub format: ManifestFormat,
    /// The lines of the file, without their line ends.
    pub lines: Vec<String>,
}

/// The pattern for a package name was refused as a regular expression. A
/// name is escaped before it goes into a pattern, so no character of the name
/// is a reason; a pattern can still be too large.
#[derive(Debug)]
pub struct MatchError {
    /// The format whose pattern was being built.
    pub format: ManifestFormat,
    /// The package name that went into the pattern.
    pub name: String,
}

/// The pattern that `format` builds for `name` compiles.
pub open spec fn accepted(format: ManifestFormat, name: Seq<char>) -> bool {
    regex_of(format.pattern_text(name)) is Some
}

/// The patterns that `format` builds for `names` all compile.
pub open spec fn all_accepted(format: ManifestFormat, names: Seq<Seq<char>>) -> bool {
    forall|j: int| 0 <= j < names.len() ==> accepted(format, #[trigger] names[j])
}

/// `names[j]` is the first of `names` whose pattern in `format` is refused.
pub open spec fn first_refused(format: ManifestFormat, names: Seq<Seq<char>>, j: int) -> bool {
    &&& 0 <= j < names.len()
    &&& !accepted(format, names[j])
    &&& all_accepted(format, names.take(j))
}

/// For every one of `manifests`, the patterns that its format builds for
/// `names` all compile.
pub open spec fn all_accept(manifests: Seq<Manifest>, names: Seq<Seq<char>>) -> bool {
    forall|k: int|
        0 <= k < manifests.len() ==> all_accepted((#[trigger] manifests[k]).format, names)
}

/// `manifests[k]` is the first of `manifests` whose format builds a pattern
/// for one of `names` that is refused.
pub open spec fn first_refusing(manifests: Seq<Manifest>, names: Seq<Seq<char>>, k: int) -> bool {
    &&& 0 <= k < manifests.len()
    &&& !all_accepted(manifests[k].format, names)
    &&& all_accept(manifests.take(k), names)
}

/// `error` names the first of `manifests` with a refused pattern, by its
/// format, and the first of `names` whose pattern that format refuses.
pub open spec fn names_first_refusal(
    error: MatchError,
    manifests: Seq<Manifest>,
    names: Seq<Seq<char>>,
) -> bool {
    exists|k: int, j: int|
        #![trigger first_refusing(manifests, names, k), names[j]]
        first_refusing(manifests, names, k) && first_refused(manifests[k].format, names, j)
            && error.format == manifests[k].format && error.name@ == names[j]
}

/// One of `manifests` declares `name`.
pub open spec fn declared_somewhere(manifests: Seq<Manifest>, name: Seq<char>) -> bool {
    exists|k: int| 0 <= k < manifests.len() && (#[trigger] manifests[k]).declares(name)
}

/// The order of the declared set: the manifests one after the other, and of
/// each the candidates it declares that no earlier manifest declared, in the
/// order of the candidates.
pub open spec fn declared_order(candidates: Seq<Seq<char>>, manifests: Seq<Manifest>) -> Seq<
    Seq<char>,
>
    decreases manifests.len(),
{
    if manifests.len() == 0 {
        Seq::empty()
    } else {
        let earlier = declared_order(candidates, manifests.drop_last());
        earlier + candidates.filter(manifests.last().declares_test()).filter(
            crate::names::not_in(earlier.to_set()),
        )
    }
}

/// The candidates that at least one of `manifests` declares.
pub open spec fn declared_names(candidates: Set<Seq<char>>, manifests: Seq<Manifest>) -> Set<
    Seq<char>,
> {
    candidates.filter(|n: Seq<char>| declared_somewhere(manifests, n))
}

/// Only candidates are ever declared.
pub proof fn declared_names_are_candidates(candidates: Set<Seq<char>>, manifests: Seq<Manifest>)
    ensures
        declared_names(candidates, manifests).subset_of(candidates),
{
}

/// The declared set does not depend on the order in which the manifests are
/// taken.
pub proof fn declared_names_any_order(
    candidates: Set<Seq<char>>,
    first: Seq<Manifest>,
    second: Seq<Manifest>,
)
    ensures
        declared_names(candidates, first + second) == declared_names(candidates, second + first),
        declared_names(candidates, first + second) == declared_names(candidates, first).union(
            declared_names(candidates, second),
        ),
{
    assert forall|n: Seq<char>|
        declared_somewhere(first + second, n) <==> (declared_somewhere(first, n)
            || declared_somewhere(second, n)) by {
        declared_in_either(first, second, n);
    }
    assert forall|n: Seq<char>|
        declared_somewhere(second + first, n) <==> (declared_somewhere(first, n)
            || declared_somewhere(second, n)) by {
        declared_in_either(second, first, n);
    }
    let either = declared_names(candidates, first).union(declared_names(candidates, second));
    assert(declared_names(candidates, first + second) =~= either);
    assert(declared_names(candidates, second + first) =~= either);
}

/// Matching a second time changes nothing: neither the same manifests taken
/// again, nor the declared set taken as the candidates.
pub proof fn declared_names_idempotent(candidates: Set<Seq<char>>, manifests: Seq<Manifest>)
    ensures
        declared_names(candidates, manifests + manifests) == declared_names(candidates, manifests),
        declared_names(declared_names(candidates, manifests), manifests) == declared_names(
            candidates,
            manifests,
        ),
{
    declared_names_any_order(candidates, manifests, manifests);
    assert(declared_names(candidates, manifests + manifests) =~= declared_names(
        candidates,
        manifests,
    ));
    assert(declared_names(declared_names(candidates, manifests), manifests) =~= declared_names(
        candidates,
        manifests,
    ));
}

proof fn declared_in_either(first: Seq<Manifest>, second: Seq<Manifest>, name: Seq<char>)
    ensures
        declared_somewhere(first + second, name) <==> (declared_somewhere(first, name)
            || declared_somewhere(second, name)),
{
    let both = first + second;
    if declared_somewhere(both, name) {
        let k = choose|k: int| 0 <= k < both.len() && (#[trigger] both[k]).declares(name);
        if k < first.len() {
            assert(first[k].declares(name));
        } else {
            assert(second[k - first.len()].declares(name));
        }
    }
    if declared_somewhere(first, name) {
        let k = choose|k: int| 0 <= k < first.len() && (#[trigger] first[k]).declares(name);
        assert(both[k].declares(name));
    }
    if declared_somewhere(second, name) {
        let k = choose|k: int| 0 <= k < second.len() && (#[trigger] second[k]).declares(name);
        assert(both[k + first.len()].declares(name));
    }
}

/// Whether one of `lines` matches `re`.
pub fn any_line_matches(re: &Regex, lines: &Vec<String>) -> (found: bool)
    ensures
        found == some_line_matches(*re, texts(lines@)),
{
    let mut i: usize = 0;
    while i < lines.len()
        invariant
            i <= lines.len(),
            forall|j: int| 0 <= j < i ==> !regex_matches(*re, #[trigger] texts(lines@)[j]),
        decreases lines.len() - i,
    {
        if is_match(re, lines[i].as_str()) {
            assert(regex_matches(*re, texts(lines@)[i as int]));
            return true;
        }
        i += 1;
    }
    false
}

impl Manifest {
    /// The lines as texts.
    pub open spec fn line_texts(&self) -> Seq<Seq<char>> {
        texts(self.lines@)
    }

    /// One of the lines declares `name`: it matches the expression that the
    /// format's pattern for `name` compiles to. A name whose pattern is
    /// refused is declared nowhere.
    pub open spec fn declares(&self, name: Seq<char>) -> bool {
        match regex_of(self.format.pattern_text(name)) {
            Some(re) => some_line_matches(re, self.line_texts()),
            None => false,
        }
    }

    /// The test that keeps the names that this manifest declares.
    pub open spec fn declares_test(&self) -> spec_fn(Seq<char>) -> bool {
        |n: Seq<char>| self.declares(n)
    }

    /// The members of `candidates` that this manifest declares.
    pub open spec fn declared_here(&self, candidates: Set<Seq<char>>) -> Set<Seq<char>> {
        candidates.filter(self.declares_test())
    }

    /// Whether this manifest declares `name`. Fails when, and only when, the
    /// pattern for `name` is refused as a regular expression; the error then
    /// carries `name` and the format.
    pub fn check(&self, name: &String) -> (answer: Result<bool, MatchError>)
        ensures
            answer is Ok <==> accepted(self.format, name@),
            match answer {
                Ok(found) => found == self.declares(name@),
                Err(e) => e.name@ == name@ && e.format == self.format,
            },
    {
        let pattern = self.format.pattern(name.as_str());
        self.judge(name, compile(pattern.as_str()))
    }

    /// The answer for `name` once its pattern has been handed to the
    /// compiler of regular expressions: whether one of the lines matches the
    /// compiled pattern, or, where the pattern was refused, the error that
    /// names the package and this manifest's format.
    pub fn judge(&self, name: &String, compiled: Result<Regex, regex::Error>) -> (answer: Result<
        bool,
        MatchError,
    >)
        ensures
            match compiled {
                Ok(re) => answer matches Ok(found) && found == some_line_matches(
                    re,
                    self.line_texts(),
                ),
                Err(_) => answer matches Err(e) && e.name@ == name@ && e.format == self.format,
            },
    {
        match compiled {
            Ok(re) => Ok(any_line_matches(&re, &self.lines)),
            Err(_) => Err(MatchError { format: self.format, name: name.clone() }),
        }
    }

    /// The candidates that this manifest declares, in the order of
    /// `candidates`. Every candidate's pattern is compiled once and tried on
    /// every line. Fails when, and only when, the pattern for one of the
    /// candidates is refused as a regular expression; the error then names
    /// the first such candidate, in the order of `candidates`.
    pub fn declared_in(&self, candidates: &NameSet) -> (found: Result<NameSet, MatchError>)
        ensures
            found is Ok <==> all_accepted(self.format, candidates.order()),
            match found {
                Ok(declared) => {
                    &&& declared@ == self.declared_here(candidates@)
                    &&& declared@.subset_of(candidates@)
                    &&& declared.order() == candidates.order().filter(self.declares_test())
                },
                Err(e) => e.format == self.format && exists|j: int|
                    first_refused(self.format, candidates.order(), j)
                        && #[trigger] candidates.order()[j] == e.name@,
            },
    {
        let mut declared = NameSet::new();
        let n: usize = candidates.len();
        let ghost test = self.declares_test();
        let mut i: usize = 0;
        proof {
            reveal(Seq::filter);
            assert(candidates.order().take(0) =~= Seq::<Seq<char>>::empty());
            assert(declared@ =~= self.declared_here(candidates.order().take(0).to_set()));
        }
        while i < n
            invariant
                n == candidates.order().len(),
                i <= n,
                test == self.declares_test(),
                all_accepted(self.format, candidates.order().take(i as int)),
                declared@ == self.declared_here(candidates.order().take(i as int).to_set()),
                declared.order() == candidates.order().take(i as int).filter(test),
            decreases n - i,
        {
            let name = candidates.get(i);
            let ghost seen = candidates.order().take(i as int);
            proof {
                use_type_invariant(candidates);
                let next = candidates.order().take(i as int + 1);
                assert(candidates.order().contains(name@));
                seen.lemma_push_to_set_commute(name@);
                assert(next =~= seen.push(name@));
                assert(next.drop_last() =~= seen);
                reveal(Seq::filter);
                assert(next.filter(test) == if test(name@) {
                    seen.filter(test).push(name@)
                } else {
                    seen.filter(test)
                });
                if seen.to_set().contains(name@) {
                    let k = choose|k: int| 0 <= k < seen.len() && seen[k] == name@;
                    assert(candidates.order()[k] == candidates.order()[i as int]);
                }
            }
            match self.check(name) {
                Ok(true) => {
                    declared.insert(name.clone());
                    assert(declared@ =~= self.declared_here(seen.to_set().insert(name@)));
                },
                Ok(false) => {
                    assert(declared@ =~= self.declared_here(seen.to_set().insert(name@)));
                },
                Err(e) => {
                    assert(first_refused(self.format, candidates.order(), i as int));
                    return Err(e);
                },
            }
            assert(all_accepted(self.format, candidates.order().take(i as int + 1))) by {
                assert forall|j: int| 0 <= j < i + 1 implies accepted(
                    self.format,
                    #[trigger] candidates.order().take(i as int + 1)[j],
                ) by {
                    if j < i {
                        assert(candidates.order().take(i as int)[j] == candidates.order()[j]);
                    }
                }
            }
            i += 1;
        }
        proof {
            assert(candidates.order().take(i as int) =~= candidates.order());
        }
        Ok(declared)
    }
}

/// The candidates that at least one of `manifests` declares. The manifests
/// are taken one after the other and what each declares is merged into the
/// result, which only grows. Fails when, and only when, one of the patterns,
/// of any manifest's format for any candidate, is refused as a regular
/// expression; the error then names the format of the first manifest with
/// such a pattern and the first candidate whose pattern that format refuses.
pub fn declared_set(manifests: &Vec<Manifest>, candidates: &NameSet) -> (found: Result<
    NameSet,
    MatchError,
>)
    ensures
        found is Ok <==> all_accept(manifests@, candidates.order()),
        match found {
            Ok(declared) => {
                &&& declared@ == declared_names(candidates@, manifests@)
                &&& declared@.subset_of(candidates@)
                &&& declared.order() == declared_order(candidates.order(), manifests@)
            },
            Err(e) => names_first_refusal(e, manifests@, candidates.order()),
        },
{
    let mut declared = NameSet::new();
    let mut k: usize = 0;
    assert(declared@ =~= declared_names(candidates@, manifests@.take(0)));
    while k < manifests.len()
        invariant
            k <= manifests.len(),
            all_accept(manifests@.take(k as int), candidates.order()),
            declared@ == declared_names(candidates@, manifests@.take(k as int)),
            declared.order() == declared_order(candidates.order(), manifests@.take(k as int)),
        decreases manifests.len() - k,
    {
        match manifests[k].declared_in(candidates) {
            Ok(here) => {
                declared.absorb(&here);
                proof {
                    let done = manifests@.take(k as int);
                    let next = manifests@.take(k as int + 1);
                    assert(next =~= done.push(manifests@[k as int]));
                    assert(next.drop_last() =~= done);
                    assert(next.last() == manifests@[k as int]);
                    assert forall|n: Seq<char>|
                        declared_somewhere(next, n) <==> (declared_somewhere(done, n)
                            || manifests@[k as int].declares(n)) by {
                        if declared_somewhere(done, n) {
                            let j = choose|j: int| 0 <= j < done.len() && (#[trigger] done[j]).declares(n);
                            assert(next[j].declares(n));
                        }
                        if manifests@[k as int].declares(n) {
                            assert(next[k as int].declares(n));
                        }
                    }
                    assert(declared@ =~= declared_names(candidates@, next));
                    assert forall|j: int| 0 <= j < next.len() implies all_accepted(
                        (#[trigger] next[j]).format,
                        candidates.order(),
                    ) by {
                        if j < k {
                            assert(done[j] == next[j]);
                        }
                    }
                }
            },
            Err(e) => {
                proof {
                    let order = candidates.order();
                    let j = choose|j: int|
                        first_refused(manifests@[k as int].format, order, j) && #[trigger] order[j]
                            == e.name@;
                    assert(!accepted(manifests@[k as int].format, order[j]));
                    assert(first_refusing(manifests@, order, k as int));
                }
                return Err(e);
            },
        }
        k += 1;
    }
    assert(manifests@.take(k as int) =~= manifests@);
    Ok(declared)
}

} // verus!
