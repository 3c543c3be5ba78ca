//! Reading the scanner's report: which packages it names as vulnerable.
//!
//! The report is a JSON document. It is parsed and read through the
//! `serde_json` crate; what is done with the parts is decided here.

use crate::names::{with_names, with_names_in_batches, without_quotes, NameSet};
use serde_json::Value;
use vstd::prelude::*;

verus! {

/// `serde_json::Value`, a JSON document. Nothing inside it is seen here: it
/// is read through the functions below.
#[verifier::external_type_specification]
#[verifier::external_body]
pub struct ExJsonValue(serde_json::Value);

/// `serde_json::Error`, why a text was refused as JSON. Nothing inside it is
/// seen here.
#[verifier::external_type_specification]
#[verifier::external_body]
pub struct ExJsonError(serde_json::Error);

/// The document that `text` is the JSON of, where it is JSON at all: what
/// `serde_json::from_str` makes of it.
pub uninterp spec fn json_parse(text: Seq<char>) -> Option<Value>;

/// The member of the object `value` under `key`; `None` where `value` is no
/// object or has no such member: what `Value::get` returns for a string key.
pub uninterp spec fn json_member(value: Value, key: Seq<char>) -> Option<Value>;

/// The elements of the array `value`; `None` where `value` is no array: what
/// `Value::as_array` returns.
pub uninterp spec fn json_items(value: Value) -> Option<Seq<Value>>;

/// The characters of the string `value`, as they are and without the quotes
/// and escapes of its JSON form; `None` where `value` is no string: what
/// `Value::as_str` returns.
pub uninterp spec fn json_string(value: Value) -> Option<Seq<char>>;

/// `value` written out as compact JSON: what `to_string` returns for a `Value`.
pub uninterp spec fn json_text(value: Value) -> Seq<char>;

/// Calls `serde_json::from_str` for a `Value`. Trusted: whether it succeeds,
/// and the document it gives, depend on the text alone.
#[verifier::external_body]
fn parse(text: &str) -> (parsed: Result<Value, serde_json::Error>)
    ensures
        match parsed {
            Ok(value) => json_parse(text@) == Some(value),
            Err(_) => json_parse(text@) is None,
        },
{
    serde_json::from_str::<Value>(text)
}

/// Calls `Value::get` with a string key. Trusted: the answer depends on the
/// value and the key alone.
#[verifier::external_body]
fn member<'a>(value: &'a Value, key: &str) -> (found: Option<&'a Value>)
    ensures
        match found {
            Some(inner) => json_member(*value, key@) == Some(*inner),
            None => json_member(*value, key@) is None,
        },
{
    value.get(key)
}

/// Calls `Value::as_array`. Trusted: an array hands out its elements in
/// order, anything else gives `None`.
#[verifier::external_body]
fn items<'a>(value: &'a Value) -> (found: Option<&'a Vec<Value>>)
    ensures
        match found {
            Some(list) => json_items(*value) == Some(list@),
            None => json_items(*value) is None,
        },
{
    value.as_array()
}

/// Calls `Value::as_str`. Trusted: a string hands out its characters,
/// anything else gives `None`.
#[verifier::external_body]
fn string_of<'a>(value: &'a Value) -> (found: Option<&'a str>)
    ensures
        match found {
            Some(text) => json_string(*value) == Some(text@),
            None => json_string(*value) is None,
        },
{
    value.as_str()
}

/// Calls `to_string` on a `Value`. Trusted: the text depends on the value
/// alone.
#[verifier::external_body]
fn text_of(value: &Value) -> (text: String)
    ensures
        text@ == json_text(*value),
{
    value.to_string()
}

/// What reading a report gives.
#[derive(Debug)]
pub enum Extraction {
    /// The report lists no results at all: the scan was clean, and there is
    /// nothing to classify.
    Clean,
    /// The packages that the report names as vulnerable.
    Candidates(NameSet),
}

/// Why a report could not be read.
#[derive(Clone, Copy, Debug, PartialEq, Eq, Structural)]
pub enum ReportError {
    /// The text is not JSON.
    Unparseable,
    /// The results are there but are no list.
    ResultsNotList,
    /// The vulnerabilities of some result are there but are no list.
    VulnerabilitiesNotList,
}

/// The package name that the value of a `PkgName` member stands for: the
/// characters of the string with every double quote taken out and nothing in
/// its place. A value that is no string is taken as its JSON text, again
/// without double quotes.
pub open spec fn field_name(field: Value) -> Seq<char> {
    match json_string(field) {
        Some(content) => without_quotes(content),
        None => without_quotes(json_text(field)),
    }
}

/// The package name that a vulnerability entry carries; `None` where it has
/// no `PkgName` member.
pub open spec fn entry_name(entry: Value) -> Option<Seq<char>> {
    match json_member(entry, "PkgName"@) {
        Some(field) => Some(field_name(field)),
        None => None,
    }
}

/// The vulnerability entries of one result: none where the result has no
/// `Vulnerabilities` member, and `None` where that member is no list.
pub open spec fn result_entries(result: Value) -> Option<Seq<Value>> {
    match json_member(result, "Vulnerabilities"@) {
        Some(list) => json_items(list),
        None => Some(Seq::empty()),
    }
}

/// The names that the entries carry, one for each entry that has one, in the
/// order of the entries.
pub open spec fn entry_names(entries: Seq<Value>) -> Seq<Seq<char>>
    decreases entries.len(),
{
    if entries.len() == 0 {
        Seq::empty()
    } else {
        let earlier = entry_names(entries.drop_last());
        match entry_name(entries.last()) {
            Some(name) => earlier.push(name),
            None => earlier,
        }
    }
}

/// The names that the entries of all the results carry, in the order of the
/// report.
pub open spec fn report_name_list(results: Seq<Value>) -> Seq<Seq<char>>
    decreases results.len(),
{
    if results.len() == 0 {
        Seq::empty()
    } else {
        report_name_list(results.drop_last()) + match result_entries(results.last()) {
            Some(entries) => entry_names(entries),
            None => Seq::empty(),
        }
    }
}

/// The names that the entries carry.
pub open spec fn names_among(entries: Seq<Value>) -> Set<Seq<char>> {
    Set::new(
        |n: Seq<char>|
            exists|j: int| 0 <= j < entries.len() && entry_name(#[trigger] entries[j]) == Some(n),
    )
}

/// The names that the entries of one result carry.
pub open spec fn result_names(result: Value) -> Set<Seq<char>> {
    match result_entries(result) {
        Some(entries) => names_among(entries),
        None => Set::empty(),
    }
}

/// The names that the entries of all the results carry.
pub open spec fn report_names(results: Seq<Value>) -> Set<Seq<char>> {
    Set::new(
        |n: Seq<char>|
            exists|i: int| 0 <= i < results.len() && result_names(#[trigger] results[i]).contains(n),
    )
}

/// Every result's vulnerabilities are a list, where it has any.
pub open spec fn results_readable(results: Seq<Value>) -> bool {
    forall|i: int| 0 <= i < results.len() ==> result_entries(#[trigger] results[i]) is Some
}

/// `outcome` is what reading the parsed report `report` gives.
pub open spec fn extracted(report: Value, outcome: Result<Extraction, ReportError>) -> bool {
    match json_member(report, "Results"@) {
        None => outcome matches Ok(Extraction::Clean),
        Some(list) => match json_items(list) {
            None => outcome == Err::<Extraction, ReportError>(ReportError::ResultsNotList),
            Some(results) => if results_readable(results) {
                outcome matches Ok(Extraction::Candidates(names)) && names@ == report_names(
                    results,
                ) && names.order() == with_names(
                    Seq::empty(),
                    report_name_list(results),
                )
            } else {
                outcome == Err::<Extraction, ReportError>(ReportError::VulnerabilitiesNotList)
            },
        },
    }
}

/// The package name that the value of a `PkgName` member stands for.
pub fn package_name(field: &Value) -> (name: String)
    ensures
        name@ == field_name(*field),
{
    match string_of(field) {
        Some(content) => crate::names::strip_quotes(content),
        None => {
            let written = text_of(field);
            crate::names::strip_quotes(written.as_str())
        },
    }
}

/// Adds to `names` the package name of every entry that carries one. An
/// entry without a name adds nothing.
pub fn collect_names(entries: &Vec<Value>, names: &mut NameSet)
    ensures
        final(names)@ == old(names)@.union(names_among(entries@)),
        final(names).order() == with_names(old(names).order(), entry_names(entries@)),
{
    let mut j: usize = 0;
    assert(names@ =~= names@.union(names_among(entries@.take(0))));
    assert(entries@.take(0) =~= Seq::<Value>::empty());
    while j < entries.len()
        invariant
            j <= entries.len(),
            names@ == old(names)@.union(names_among(entries@.take(j as int))),
            names.order() == with_names(old(names).order(), entry_names(entries@.take(j as int))),
        decreases entries.len() - j,
    {
        let ghost done = entries@.take(j as int);
        let ghost next = entries@.take(j as int + 1);
        proof {
            assert(next =~= done.push(entries@[j as int]));
            assert(next.drop_last() =~= done);
            assert(next.last() == entries@[j as int]);
            if entry_name(entries@[j as int]) is Some {
                assert(entry_names(next).drop_last() =~= entry_names(done));
            }
            assert forall|n: Seq<char>|
                names_among(next).contains(n) <==> (names_among(done).contains(n) || entry_name(
                    entries@[j as int],
                ) == Some(n)) by {
                if names_among(done).contains(n) {
                    let i = choose|i: int|
                        0 <= i < done.len() && entry_name(#[trigger] done[i]) == Some(n);
                    assert(entry_name(next[i]) == Some(n));
                }
                if entry_name(entries@[j as int]) == Some(n) {
                    assert(entry_name(next[j as int]) == Some(n));
                }
            }
        }
        match member(&entries[j], "PkgName") {
            Some(field) => {
                names.insert(package_name(field));
                assert(names@ =~= old(names)@.union(names_among(next)));
            },
            None => {
                assert(names@ =~= old(names)@.union(names_among(next)));
            },
        }
        j += 1;
    }
    assert(entries@.take(j as int) =~= entries@);
}

/// The candidates that a parsed report names. A report without `Results` is a
/// clean scan. A vulnerability without a package name is passed over.
pub fn candidates_of(report: &Value) -> (outcome: Result<Extraction, ReportError>)
    ensures
        extracted(*report, outcome),
{
    let list = match member(report, "Results") {
        Some(list) => list,
        None => {
            return Ok(Extraction::Clean);
        },
    };
    let results = match items(list) {
        Some(results) => results,
        None => {
            return Err(ReportError::ResultsNotList);
        },
    };
    let mut names = NameSet::new();
    let mut i: usize = 0;
    assert(names@ =~= report_names(results@.take(0)));
    assert(results@.take(0) =~= Seq::<Value>::empty());
    while i < results.len()
        invariant
            i <= results.len(),
            names.order() == with_names(Seq::empty(), report_name_list(results@.take(i as int))),
            json_member(*report, "Results"@) == Some(*list),
            json_items(*list) == Some(results@),
            names@ == report_names(results@.take(i as int)),
            results_readable(results@.take(i as int)),
        decreases results.len() - i,
    {
        let ghost done = results@.take(i as int);
        let ghost next = results@.take(i as int + 1);
        proof {
            assert(next =~= done.push(results@[i as int]));
            assert(next.drop_last() =~= done);
            assert(next.last() == results@[i as int]);
            assert forall|n: Seq<char>|
                report_names(next).contains(n) <==> (report_names(done).contains(n)
                    || result_names(results@[i as int]).contains(n)) by {
                if report_names(done).contains(n) {
                    let k = choose|k: int|
                        0 <= k < done.len() && result_names(#[trigger] done[k]).contains(n);
                    assert(result_names(next[k]).contains(n));
                }
                if result_names(results@[i as int]).contains(n) {
                    assert(result_names(next[i as int]).contains(n));
                }
            }
        }
        match member(&results[i], "Vulnerabilities") {
            Some(found) => match items(found) {
                Some(entries) => {
                    proof {
                        with_names_in_batches(
                            Seq::empty(),
                            report_name_list(done),
                            entry_names(entries@),
                        );
                    }
                    collect_names(entries, &mut names);
                    assert(result_names(results@[i as int]) == names_among(entries@));
                },
                None => {
                    assert(result_entries(results@[i as int]) is None);
                    return Err(ReportError::VulnerabilitiesNotList);
                },
            },
            None => {
                assert(result_names(results@[i as int]) =~= Set::<Seq<char>>::empty());
                assert(report_name_list(next) =~= report_name_list(done));
            },
        }
        assert(names@ =~= report_names(next));
        assert(results_readable(next)) by {
            assert forall|k: int| 0 <= k < next.len() implies result_entries(
                #[trigger] next[k],
            ) is Some by {
                if k < i {
                    assert(next[k] == done[k]);
                }
            }
        }
        i += 1;
    }
    assert(results@.take(i as int) =~= results@);
    Ok(Extraction::Candidates(names))
}

/// The candidates that the report written as `text` names.
pub fn extract(text: &str) -> (outcome: Result<Extraction, ReportError>)
    ensures
        match json_parse(text@) {
            Some(report) => extracted(report, outcome),
            None => outcome == Err::<Extraction, ReportError>(ReportError::Unparseable),
        },
{
    match parse(text) {
        Ok(report) => candidates_of(&report),
        Err(_) => Err(ReportError::Unparseable),
    }
}

} // verus!
