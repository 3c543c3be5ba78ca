//! The ignore set and the policy document that carries it to the scanner.

use crate::matcher::{
    all_accept, declared_names, declared_order, declared_set, names_first_refusal, Manifest,
    MatchError,
};
use crate::names::{is_not_quote, without_quotes, without_quotes_has_none, NameSet};
use vstd::prelude::*;

verus! {

/// The parts written one after the other, with `sep` between neighbours.
pub open spec fn joined(parts: Seq<Seq<char>>, sep: Seq<char>) -> Seq<char>
    decreases parts.len(),
{
    if parts.len() == 0 {
        Seq::empty()
    } else if parts.len() == 1 {
        parts[0]
    } else {
        joined(parts.drop_last(), sep) + sep + parts.last()
    }
}

/// The names as they enter the policy: each without its double quotes.
pub open spec fn clean_names(names: Seq<Seq<char>>) -> Seq<Seq<char>> {
    names.map_values(|n: Seq<char>| without_quotes(n))
}

/// The document up to and including the quote that opens the first name.
pub open spec fn policy_head() -> Seq<char> {
    "package trivy\nimport data.lib.trivy\ndefault ignore = false\nignore_pkgs := {\""@
}

/// What stands between two names of the collection.
pub open spec fn policy_separator() -> Seq<char> {
    "\",\""@
}

/// The document from the quote that closes the last name.
pub open spec fn policy_tail() -> Seq<char> {
    "\"}\nignore {\ninput.PkgName == ignore_pkgs[_]\n}\n"@
}

/// The policy that makes the scanner ignore the packages `names`: a package
/// declaration, an import, the default, the collection of the names as quoted
/// strings, and the rule that ignores a finding whose package is in it.
pub open spec fn policy_text(names: Seq<Seq<char>>) -> Seq<char> {
    policy_head() + joined(clean_names(names), policy_separator()) + policy_tail()
}

/// No name enters the policy's collection with a double quote in it, however
/// it was written.
pub proof fn policy_names_hold_no_quote(names: Seq<Seq<char>>, i: int)
    requires
        0 <= i < names.len(),
    ensures
        clean_names(names).len() == names.len(),
        !clean_names(names)[i].contains('"'),
        !names[i].contains('"') ==> clean_names(names)[i] == names[i],
{
    without_quotes_has_none(names[i]);
}

/// Names that differ only in double quotes give the same policy: writing
/// the policy for names that were cleaned already changes nothing.
pub proof fn policy_ignores_quotes(names: Seq<Seq<char>>)
    ensures
        policy_text(clean_names(names)) == policy_text(names),
{
    assert forall|i: int| 0 <= i < names.len() implies clean_names(clean_names(names))[i]
        == clean_names(names)[i] by {
        without_quotes_has_none(names[i]);
    }
    assert(clean_names(clean_names(names)) =~= clean_names(names));
}

/// The separator without its double quotes is a comma.
proof fn separator_without_quotes()
    ensures
        without_quotes(policy_separator()) == ","@,
{
    reveal_strlit("\",\"");
    reveal_strlit(",");
    reveal_with_fuel(Seq::filter, 4);
    let sep = policy_separator();
    assert(sep.drop_last() =~= seq!['"', ',']);
    assert(sep.drop_last().drop_last() =~= seq!['"']);
    assert(sep.drop_last().drop_last().drop_last() =~= Seq::<char>::empty());
    assert(without_quotes(sep) =~= ","@);
}

/// The collection of the policy holds no double quote but those that enclose
/// the names: with the quotes taken out, what is left is the cleaned names
/// with commas between them.
pub proof fn collection_quotes_enclose_names(names: Seq<Seq<char>>)
    ensures
        without_quotes(joined(clean_names(names), policy_separator())) == joined(
            clean_names(names),
            ","@,
        ),
    decreases names.len(),
{
    let parts = clean_names(names);
    let keep = is_not_quote();
    reveal(Seq::filter);
    if names.len() == 0 {
    } else if names.len() == 1 {
        without_quotes_has_none(names[0]);
    } else {
        let earlier = joined(parts.drop_last(), policy_separator());
        collection_quotes_enclose_names(names.drop_last());
        assert(parts.drop_last() =~= clean_names(names.drop_last()));
        without_quotes_has_none(names.last());
        Seq::filter_distributes_over_add(earlier + policy_separator(), parts.last(), keep);
        Seq::filter_distributes_over_add(earlier, policy_separator(), keep);
        separator_without_quotes();
    }
}

/// The ignore set and the declared set split the candidates in two: they
/// share no name, and together they are the candidates.
pub proof fn ignore_and_declared_partition(candidates: Set<Seq<char>>, manifests: Seq<Manifest>)
    ensures
        candidates.difference(declared_names(candidates, manifests)).disjoint(
            declared_names(candidates, manifests),
        ),
        candidates.difference(declared_names(candidates, manifests)).union(
            declared_names(candidates, manifests),
        ) == candidates,
{
    let declared = declared_names(candidates, manifests);
    assert(candidates.difference(declared).union(declared) =~= candidates);
}

/// The candidates that are not declared, in the order of `candidates`.
pub fn ignore_set(candidates: &NameSet, declared: &NameSet) -> (ignored: NameSet)
    ensures
        ignored@ == candidates@.difference(declared@),
        ignored.order() == candidates.order().filter(crate::names::not_in(declared@)),
        ignored@.disjoint(declared@),
        declared@.subset_of(candidates@) ==> ignored@.union(declared@) == candidates@,
{
    let ignored = candidates.difference(declared);
    proof {
        if declared@.subset_of(candidates@) {
            assert(ignored@.union(declared@) =~= candidates@);
        }
    }
    ignored
}

/// The policy document for the ignore set, names in the order of the set.
/// An empty set gives a collection that holds the empty string alone.
pub fn policy_document(ignored: &NameSet) -> (document: String)
    ensures
        document@ == policy_text(ignored.order()),
{
    let mut document = String::from_str(
        "package trivy\nimport data.lib.trivy\ndefault ignore = false\nignore_pkgs := {\"",
    );
    let n: usize = ignored.len();
    let ghost parts = clean_names(ignored.order());
    let ghost sep = policy_separator();
    let mut i: usize = 0;
    assert(document@ =~= policy_head() + joined(parts.take(0), sep));
    while i < n
        invariant
            n == ignored.order().len(),
            i <= n,
            parts == clean_names(ignored.order()),
            sep == policy_separator(),
            document@ == policy_head() + joined(parts.take(i as int), sep),
        decreases n - i,
    {
        if i > 0 {
            document.append("\",\"");
        }
        let clean = crate::names::strip_quotes(ignored.get(i).as_str());
        document.append(clean.as_str());
        proof {
            let next = parts.take(i as int + 1);
            assert(next.drop_last() =~= parts.take(i as int));
            assert(next.last() == clean@);
            assert(document@ =~= policy_head() + joined(next, sep));
        }
        i += 1;
    }
    assert(parts.take(i as int) =~= parts);
    document.append("\"}\nignore {\ninput.PkgName == ignore_pkgs[_]\n}\n");
    assert(document@ =~= policy_text(ignored.order()));
    document
}

/// What becomes of the candidates.
#[derive(Debug)]
pub struct Classification {
    /// The candidates that some manifest declares.
    pub declared: NameSet,
    /// The candidates that no manifest declares.
    pub ignored: NameSet,
    /// The policy that makes the scanner ignore them.
    pub policy: String,
}

/// Sorts the candidates into declared and ignored by the manifests, and
/// writes the policy for the ignored ones. Fails when, and only when, one of
/// the patterns, of any manifest's format for any candidate, is refused as a
/// regular expression; the error then names the format of the first manifest
/// with such a pattern and the first candidate whose pattern that format
/// refuses.
pub fn classify(candidates: &NameSet, manifests: &Vec<Manifest>) -> (outcome: Result<
    Classification,
    MatchError,
>)
    ensures
        outcome is Ok <==> all_accept(manifests@, candidates.order()),
        match outcome {
            Ok(c) => {
                &&& c.declared@ == declared_names(candidates@, manifests@)
                &&& c.ignored@ == candidates@.difference(c.declared@)
                &&& c.declared@.subset_of(candidates@)
                &&& c.declared.order() == declared_order(candidates.order(), manifests@)
                &&& c.ignored@.disjoint(c.declared@)
                &&& c.ignored@.union(c.declared@) == candidates@
                &&& c.ignored.order() == candidates.order().filter(
                    crate::names::not_in(c.declared@),
                )
                &&& c.policy@ == policy_text(c.ignored.order())
            },
            Err(e) => names_first_refusal(e, manifests@, candidates.order()),
        },
{
    match declared_set(manifests, candidates) {
        Ok(declared) => {
            let ignored = ignore_set(candidates, &declared);
            let policy = policy_document(&ignored);
            Ok(Classification { declared, ignored, policy })
        },
        Err(e) => Err(e),
    }
}

} // verus!
