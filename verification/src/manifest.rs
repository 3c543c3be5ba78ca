//! Manifest formats: how a file is recognised by its name, and the line
//! pattern by which each format declares a package. The `regex` crate escapes
//! the package name that goes into a pattern.

use crate::names::texts;
use vstd::prelude::*;

verus! {

/// `c`, or its lower-case letter where `c` is an upper-case ASCII letter.
pub open spec fn ascii_lower(c: char) -> char {
    if 'A' <= c && c <= 'Z' {
        ((c as u8 + 32) as u8) as char
    } else {
        c
    }
}

/// `text` with its ASCII letters in lower case.
pub open spec fn lowered(text: Seq<char>) -> Seq<char> {
    text.map_values(|c: char| ascii_lower(c))
}

/// `text` ends with `tail`.
pub open spec fn ends_with(text: Seq<char>, tail: Seq<char>) -> bool {
    tail.len() <= text.len() && text.subrange(text.len() - tail.len(), text.len() as int) == tail
}

/// `name`, with its ASCII letters in lower case, ends with `base`.
pub open spec fn ends_with_lowered(name: Seq<char>, base: Seq<char>) -> bool {
    ends_with(lowered(name), base)
}

/// The characters that mean something other than themselves in a regular
/// expression.
pub open spec fn is_meta(c: char) -> bool {
    c == '\\' || c == '.' || c == '+' || c == '*' || c == '?' || c == '(' || c == ')' || c == '|'
        || c == '[' || c == ']' || c == '{' || c == '}' || c == '^' || c == '$' || c == '#' || c
        == '&' || c == '-' || c == '~'
}

/// `text` with a backslash before each of its characters that `is_meta`.
pub open spec fn escaped(text: Seq<char>) -> Seq<char>
    decreases text.len(),
{
    if text.len() == 0 {
        Seq::empty()
    } else if is_meta(text.last()) {
        escaped(text.drop_last()).push('\\').push(text.last())
    } else {
        escaped(text.drop_last()).push(text.last())
    }
}

/// Calls `regex::escape`. Trusted: every character comes out as it went in,
/// in order, with a backslash put before each of the eighteen characters that
/// the `regex` crate counts as meta characters.
#[verifier::external_body]
fn escape(text: &str) -> (quoted: String)
    ensures
        quoted@ == escaped(text@),
{
    regex::escape(text)
}

/// The formats of manifest that are understood.
#[derive(Clone, Copy, Debug, PartialEq, Eq, Structural)]
pub enum ManifestFormat {
    Pipfile,
    Pyproject,
    Requirements,
    PackageManifest,
}

/// The format of a file named `name`, if it has one.
pub open spec fn format_of(name: Seq<char>) -> Option<ManifestFormat> {
    if ends_with_lowered(name, ManifestFormat::Pipfile.basename()) {
        Some(ManifestFormat::Pipfile)
    } else if ends_with_lowered(name, ManifestFormat::Pyproject.basename()) {
        Some(ManifestFormat::Pyproject)
    } else if ends_with_lowered(name, ManifestFormat::Requirements.basename()) {
        Some(ManifestFormat::Requirements)
    } else if ends_with_lowered(name, ManifestFormat::PackageManifest.basename()) {
        Some(ManifestFormat::PackageManifest)
    } else {
        None
    }
}

/// A manifest found in a walk over a directory tree: which entry of the walk
/// it is, counted from 0, and its format.
#[derive(Clone, Copy, Debug, PartialEq, Eq, Structural)]
pub struct ManifestFile {
    pub index: usize,
    pub format: ManifestFormat,
}

/// The manifests among the files named `names`, in the order of `names`.
pub open spec fn located(names: Seq<Seq<char>>) -> Seq<ManifestFile>
    decreases names.len(),
{
    if names.len() == 0 {
        Seq::empty()
    } else {
        let earlier = located(names.drop_last());
        match format_of(names.last()) {
            Some(format) => earlier.push(
                ManifestFile { index: (names.len() - 1) as usize, format },
            ),
            None => earlier,
        }
    }
}

/// The manifests among the entries of a walk, given the file name of each
/// entry. Files of any other name are passed over. Nothing but the name is
/// looked at.
pub fn locate(file_names: &Vec<String>) -> (found: Vec<ManifestFile>)
    ensures
        found@ == located(texts(file_names@)),
{
    let mut found: Vec<ManifestFile> = Vec::new();
    let mut i: usize = 0;
    assert(texts(file_names@).take(0) =~= Seq::<Seq<char>>::empty());
    while i < file_names.len()
        invariant
            i <= file_names.len(),
            found@ == located(texts(file_names@).take(i as int)),
        decreases file_names.len() - i,
    {
        proof {
            let next = texts(file_names@).take(i as int + 1);
            assert(next.drop_last() =~= texts(file_names@).take(i as int));
            assert(next.last() == file_names@[i as int]@);
        }
        match ManifestFormat::recognize(file_names[i].as_str()) {
            Some(format) => {
                found.push(ManifestFile { index: i, format });
            },
            None => {},
        }
        i += 1;
    }
    assert(texts(file_names@).take(i as int) =~= texts(file_names@));
    found
}

fn lower_code(c: char) -> (code: u32)
    ensures
        code == ascii_lower(c) as u32,
{
    let code: u32 = c as u32;
    if 65 <= code && code <= 90 {
        code + 32
    } else {
        code
    }
}

/// Whether `name` ends with `base` once its ASCII letters are in lower case.
pub fn has_lowered_suffix(name: &str, base: &str) -> (found: bool)
    ensures
        found == ends_with_lowered(name@, base@),
{
    let n: usize = name.unicode_len();
    let m: usize = base.unicode_len();
    if n < m {
        return false;
    }
    let start: usize = n - m;
    let ghost tail = lowered(name@).subrange(start as int, n as int);
    let mut i: usize = 0;
    while i < m
        invariant
            n == name@.len(),
            m == base@.len(),
            start == n - m,
            i <= m,
            tail == lowered(name@).subrange(start as int, n as int),
            forall|j: int| 0 <= j < i ==> tail[j] == base@[j],
        decreases m - i,
    {
        let c: char = name.get_char(start + i);
        let b: char = base.get_char(i);
        assert(tail[i as int] == ascii_lower(c));
        if lower_code(c) != b as u32 {
            assert(tail[i as int] != base@[i as int]);
            return false;
        }
        i += 1;
    }
    assert(tail =~= base@);
    true
}

impl ManifestFormat {
    /// The file name, in lower case, that manifests of this format end with.
    pub open spec fn basename(self) -> Seq<char> {
        match self {
            ManifestFormat::Pipfile => "pipfile"@,
            ManifestFormat::Pyproject => "pyproject.toml"@,
            ManifestFormat::Requirements => "requirements.txt"@,
            ManifestFormat::PackageManifest => "package.json"@,
        }
    }

    /// What the line pattern holds before the package name.
    pub open spec fn pattern_head(self) -> Seq<char> {
        match self {
            ManifestFormat::Pipfile | ManifestFormat::Pyproject => "(?i)^\\s*("@,
            ManifestFormat::Requirements => "(?i)^\\s*[^#]*\\s*("@,
            ManifestFormat::PackageManifest => "(?i)^\\s*\"(?:\\W*[^/]*\\W*)/?("@,
        }
    }

    /// What the line pattern holds after the package name.
    pub open spec fn pattern_tail(self) -> Seq<char> {
        match self {
            ManifestFormat::Pipfile | ManifestFormat::Pyproject => ")\\s*=\\s*"@,
            ManifestFormat::Requirements => ")\\s*(?:<|>|\\^|=)+"@,
            ManifestFormat::PackageManifest => ")\"\\s*:\\s*\"\\S+\""@,
        }
    }

    /// The regular expression that finds a line which declares `name` in a
    /// manifest of this format. The name is escaped, so that each of its
    /// characters stands for itself.
    pub open spec fn pattern_text(self, name: Seq<char>) -> Seq<char> {
        self.pattern_head() + escaped(name) + self.pattern_tail()
    }

    /// The file name, in lower case, that manifests of this format end with.
    pub fn basename_str(self) -> (base: &'static str)
        ensures
            base@ == self.basename(),
    {
        match self {
            ManifestFormat::Pipfile => "pipfile",
            ManifestFormat::Pyproject => "pyproject.toml",
            ManifestFormat::Requirements => "requirements.txt",
            ManifestFormat::PackageManifest => "package.json",
        }
    }

    /// The format of the file named `file_name`, by the end of the name alone
    /// and whatever the case of its letters; `None` for any other file.
    pub fn recognize(file_name: &str) -> (format: Option<ManifestFormat>)
        ensures
            format == format_of(file_name@),
    {
        if has_lowered_suffix(file_name, ManifestFormat::Pipfile.basename_str()) {
            Some(ManifestFormat::Pipfile)
        } else if has_lowered_suffix(file_name, ManifestFormat::Pyproject.basename_str()) {
            Some(ManifestFormat::Pyproject)
        } else if has_lowered_suffix(file_name, ManifestFormat::Requirements.basename_str()) {
            Some(ManifestFormat::Requirements)
        } else if has_lowered_suffix(file_name, ManifestFormat::PackageManifest.basename_str()) {
            Some(ManifestFormat::PackageManifest)
        } else {
            None
        }
    }

    /// The regular expression for `name` in this format, as text.
    pub fn pattern(self, name: &str) -> (text: String)
        ensures
            text@ == self.pattern_text(name@),
    {
        let head: &str = match self {
            ManifestFormat::Pipfile | ManifestFormat::Pyproject => "(?i)^\\s*(",
            ManifestFormat::Requirements => "(?i)^\\s*[^#]*\\s*(",
            ManifestFormat::PackageManifest => "(?i)^\\s*\"(?:\\W*[^/]*\\W*)/?(",
        };
        let tail: &str = match self {
            ManifestFormat::Pipfile | ManifestFormat::Pyproject => ")\\s*=\\s*",
            ManifestFormat::Requirements => ")\\s*(?:<|>|\\^|=)+",
            ManifestFormat::PackageManifest => ")\"\\s*:\\s*\"\\S+\"",
        };
        let mut text = String::from_str(head);
        let literal = escape(name);
        text.append(literal.as_str());
        text.append(tail);
        text
    }
}

} // verus!
