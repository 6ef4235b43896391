use vstd::prelude::*;
use vstd::string::*;

use crate::dependency::{DepParseResult, DepParseView, DepsError, ParsedDependency, ParsedView};
use crate::parser::DependencyParser;
use crate::version::{Version, VersionView};

verus! {

/// Index of the first `c` in `s` at or after `from`.
pub open spec fn find_char(s: Seq<char>, c: char, from: int) -> Option<int>
    decreases s.len() - from,
{
    if from < 0 || from >= s.len() {
        None
    } else if s[from] == c {
        Some(from)
    } else {
        find_char(s, c, from + 1)
    }
}

/// The arrow token `" -> "` starts at `i`.
pub open spec fn arrow_at(s: Seq<char>, i: int) -> bool {
    0 <= i && i + 4 <= s.len() && s[i] == ' ' && s[i + 1] == '-' && s[i + 2] == '>' && s[i + 3]
        == ' '
}

/// Index of the first arrow token at or after `from`.
pub open spec fn find_arrow(s: Seq<char>, from: int) -> Option<int>
    decreases s.len() - from,
{
    if from < 0 || from + 4 > s.len() {
        None
    } else if arrow_at(s, from) {
        Some(from)
    } else {
        find_arrow(s, from + 1)
    }
}

/// Whether `char::is_alphabetic` holds of `c` (the Unicode Alphabetic property).
pub uninterp spec fn alphabetic(c: char) -> bool;

/// Relies on `char::is_alphabetic`, a fixed property of the character.
#[verifier::external_body]
fn is_alphabetic(c: char) -> (r: bool)
    ensures
        r == alphabetic(c),
{
    c.is_alphabetic()
}

/// Index of the first alphabetic character of `s` in `[from, to)`.
pub open spec fn find_alpha(s: Seq<char>, from: int, to: int) -> Option<int>
    decreases to - from,
{
    if from < 0 || from >= to || from >= s.len() {
        None
    } else if alphabetic(s[from]) {
        Some(from)
    } else {
        find_alpha(s, from + 1, to)
    }
}

/// `s[from..to]` when that range is in bounds and ordered, else the empty text.
pub open spec fn slice(s: Seq<char>, from: int, to: int) -> Seq<char> {
    if 0 <= from && from <= to && to <= s.len() {
        s.subrange(from, to)
    } else {
        Seq::empty()
    }
}

/// The sentinel line of a configuration without dependencies.
pub open spec fn no_deps_text() -> Seq<char> {
    seq!['N', 'o', ' ', 'd', 'e', 'p', 'e', 'n', 'd', 'e', 'n', 'c', 'i', 'e', 's']
}

pub open spec fn opt_int(r: Option<usize>) -> Option<int> {
    match r {
        Some(i) => Some(i as int),
        None => None,
    }
}

/// Where the version text after the arrow (or after the second colon when
/// there is no arrow) ends: one before the specifier's parenthesis, or the line end.
pub open spec fn tail_end(line: Seq<char>) -> int {
    match find_char(line, '(', 0) {
        Some(p) => p - 1,
        None => line.len() as int,
    }
}

/// What a dependency line decodes to; `None` is a decode failure (no colon in
/// a line other than the `No dependencies` sentinel).
pub open spec fn decode_line(line: Seq<char>) -> Option<DepParseView> {
    match find_char(line, ':', 0) {
        None => if line == no_deps_text() {
            Some(DepParseView::NoDependencies)
        } else {
            None
        },
        Some(colon) => {
                let second = find_char(line, ':', colon + 1);
                let name_end = match second {
                    Some(k) => k,
                    None => match find_char(line, ' ', colon + 1) {
                        Some(k) => k,
                        None => line.len() as int,
                    },
                };
                let arrow = find_arrow(line, 0);
                let pinned = match arrow {
                    Some(a) => VersionView::Pinned(slice(line, a + 4, tail_end(line))),
                    None => VersionView::NotApplicable,
                };
                let transitive = match second {
                    None => VersionView::NotApplicable,
                    Some(k) => VersionView::Transitive(
                        slice(
                            line,
                            k + 1,
                            match arrow {
                                Some(a) => a,
                                None => tail_end(line),
                            },
                        ),
                    ),
                };
                let ns_start = match find_alpha(line, 0, colon) {
                    Some(i) => i,
                    None => colon,
                };
                Some(
                    DepParseView::Dep(
                        ParsedView {
                            name: line.subrange(colon + 1, name_end),
                            namespace: line.subrange(ns_start, colon),
                            transitive,
                            pinned,
                        },
                    ),
                )
        },
    }
}

/// Whether two texts hold the same characters.
pub fn same_text(a: &str, b: &str) -> (r: bool)
    ensures
        r == (a@ == b@),
{
    let n = a.unicode_len();
    if n != b.unicode_len() {
        return false;
    }
    let mut i: usize = 0;
    while i < n
        invariant
            i <= n,
            n == a@.len(),
            n == b@.len(),
            forall|k: int| 0 <= k < i ==> a@[k] == b@[k],
        decreases n - i,
    {
        if a.get_char(i) != b.get_char(i) {
            return false;
        }
        i += 1;
    }
    assert(a@ =~= b@);
    true
}

pub(crate) fn find_char_exec(s: &str, n: usize, c: char, from: usize) -> (r: Option<usize>)
    requires
        n == s@.len(),
        from <= n,
    ensures
        opt_int(r) == find_char(s@, c, from as int),
        r matches Some(i) ==> from <= i < n,
{
    let mut i: usize = from;
    while i < n
        invariant
            from <= i <= n,
            n == s@.len(),
            find_char(s@, c, from as int) == find_char(s@, c, i as int),
        decreases n - i,
    {
        if s.get_char(i) == c {
            return Some(i);
        }
        i += 1;
    }
    None
}

fn find_arrow_exec(s: &str, n: usize) -> (r: Option<usize>)
    requires
        n == s@.len(),
    ensures
        opt_int(r) == find_arrow(s@, 0),
        r matches Some(a) ==> a + 4 <= n,
{
    let mut i: usize = 0;
    while n >= 4 && i <= n - 4
        invariant
            i <= n,
            n == s@.len(),
            find_arrow(s@, 0) == find_arrow(s@, i as int),
        decreases n - i,
    {
        if s.get_char(i) == ' ' && s.get_char(i + 1) == '-' && s.get_char(i + 2) == '>'
            && s.get_char(i + 3) == ' ' {
            return Some(i);
        }
        i += 1;
    }
    None
}

fn find_alpha_exec(s: &str, n: usize, to: usize) -> (r: Option<usize>)
    requires
        n == s@.len(),
        to <= n,
    ensures
        opt_int(r) == find_alpha(s@, 0, to as int),
        r matches Some(i) ==> i < to,
{
    let mut i: usize = 0;
    while i < to
        invariant
            i <= to <= n,
            n == s@.len(),
            find_alpha(s@, 0, to as int) == find_alpha(s@, i as int, to as int),
        decreases to - i,
    {
        if is_alphabetic(s.get_char(i)) {
            return Some(i);
        }
        i += 1;
    }
    None
}

fn slice_exec(s: &str, n: usize, from: usize, to: usize) -> (r: String)
    requires
        n == s@.len(),
    ensures
        r@ == slice(s@, from as int, to as int),
{
    if from <= to && to <= n {
        String::from_str(s.substring_char(from, to))
    } else {
        String::new()
    }
}

impl DependencyParser {
    /// Decodes a line already classified as a dependency line.
    pub fn parse_dep_line(&self, line: String) -> (r: Result<DepParseResult, DepsError>)
        ensures
            match r {
                Ok(d) => decode_line(line@) == Some(d@),
                Err(e) => decode_line(line@) is None && e == DepsError::Decode,
            },
    {
        let s = line.as_str();
        let n = s.unicode_len();
        let colon = match find_char_exec(s, n, ':', 0) {
            Some(k) => k,
            None => {
                let sentinel = String::from_str("No dependencies");
                proof {
                    reveal_strlit("No dependencies");
                }
                assert(sentinel@ =~= no_deps_text());
                if line.eq(&sentinel) {
                    return Ok(DepParseResult::NoDependencies);
                }
                return Err(DepsError::Decode);
            },
        };
        let second = find_char_exec(s, n, ':', colon + 1);
        let name_end: usize = match second {
            Some(k) => k,
            None => match find_char_exec(s, n, ' ', colon + 1) {
                Some(k) => k,
                None => n,
            },
        };
        let arrow = find_arrow_exec(s, n);
        let tail: usize = match find_char_exec(s, n, '(', 0) {
            Some(p) => if p > 0 {
                p - 1
            } else {
                0
            },
            None => n,
        };
        let pinned = match arrow {
            Some(a) => Version::Pinned(slice_exec(s, n, a + 4, tail)),
            None => Version::NotApplicable,
        };
        let transitive = match second {
            None => Version::NotApplicable,
            Some(k) => {
                let end: usize = match arrow {
                    Some(a) => a,
                    None => tail,
                };
                Version::Transitive(slice_exec(s, n, k + 1, end))
            },
        };
        let ns_start: usize = match find_alpha_exec(s, n, colon) {
            Some(i) => i,
            None => colon,
        };
        let name = String::from_str(s.substring_char(colon + 1, name_end));
        let namespace = String::from_str(s.substring_char(ns_start, colon));
        Ok(DepParseResult::Dep(ParsedDependency { name, namespace, transitive, pinned }))
    }
}

pub proof fn lemma_find_char_at(s: Seq<char>, c: char, from: int, i: int)
    requires
        0 <= from <= i < s.len(),
        s[i] == c,
        forall|j: int| from <= j < i ==> s[j] != c,
    ensures
        find_char(s, c, from) == Some(i),
    decreases i - from,
{
    if from < i {
        lemma_find_char_at(s, c, from + 1, i);
    }
}

pub proof fn lemma_find_char_none(s: Seq<char>, c: char, from: int)
    requires
        0 <= from,
        forall|j: int| from <= j < s.len() ==> s[j] != c,
    ensures
        find_char(s, c, from) is None,
    decreases s.len() - from,
{
    if from < s.len() {
        lemma_find_char_none(s, c, from + 1);
    }
}

pub proof fn lemma_find_arrow_none(s: Seq<char>, from: int)
    requires
        0 <= from,
        forall|j: int| from <= j < s.len() ==> s[j] != '>',
    ensures
        find_arrow(s, from) is None,
    decreases s.len() - from,
{
    if from + 4 <= s.len() {
        assert(s[from + 2] != '>');
        lemma_find_arrow_none(s, from + 1);
    }
}

pub proof fn lemma_find_arrow_at(s: Seq<char>, from: int, i: int)
    requires
        0 <= from <= i,
        arrow_at(s, i),
        forall|j: int| 0 <= j < i ==> s[j] != '>',
    ensures
        find_arrow(s, from) == Some(i),
    decreases i - from,
{
    if from < i {
        assert(!arrow_at(s, from)) by {
            if from + 2 < i {
                assert(s[from + 2] != '>');
            } else if from + 2 == i {
                assert(s[i] == ' ');
            } else {
                assert(s[i + 1] == '-');
            }
        }
        lemma_find_arrow_at(s, from + 1, i);
    }
}

pub open spec fn lacks(s: Seq<char>, c: char) -> bool {
    forall|k: int| 0 <= k < s.len() ==> s[k] != c
}

/// The arrow token `" -> "` as text.
pub open spec fn arrow_text() -> Seq<char> {
    seq![' ', '-', '>', ' ']
}

/// A line `ns:name (n)` carries neither a transitive nor a pinned version.
pub proof fn lemma_decode_bare(ns: Seq<char>, name: Seq<char>)
    requires
        lacks(ns, ':'),
        lacks(name, ':'),
        lacks(ns, '>'),
        lacks(name, '>'),
    ensures
        decode_line(ns + seq![':'] + name + seq![' ', '(', 'n', ')']) matches Some(
            DepParseView::Dep(d),
        ) && d.transitive is NotApplicable && d.pinned is NotApplicable,
{
    let line = ns + seq![':'] + name + seq![' ', '(', 'n', ')'];
    let c = ns.len() as int;
    assert(line[c] == ':');
    assert forall|j: int| 0 <= j < c implies line[j] != ':' by {
        assert(line[j] == ns[j]);
    }
    lemma_find_char_at(line, ':', 0, c);
    assert forall|j: int| c + 1 <= j < line.len() implies line[j] != ':' by {
        if j < c + 1 + name.len() {
            assert(line[j] == name[j - c - 1]);
        }
    }
    lemma_find_char_none(line, ':', c + 1);
    assert forall|j: int| 0 <= j < line.len() implies line[j] != '>' by {
        if j < c {
            assert(line[j] == ns[j]);
        } else if c < j < c + 1 + name.len() {
            assert(line[j] == name[j - c - 1]);
        }
    }
    lemma_find_arrow_none(line, 0);
}

/// A line `ns:name:V` carries transitive `V` and no pinned version.
pub proof fn lemma_decode_transitive(ns: Seq<char>, name: Seq<char>, v: Seq<char>)
    requires
        lacks(ns, ':'),
        lacks(name, ':'),
        lacks(ns, '>'),
        lacks(name, '>'),
        lacks(v, '>'),
        lacks(ns, '('),
        lacks(name, '('),
        lacks(v, '('),
    ensures
        decode_line(ns + seq![':'] + name + seq![':'] + v) matches Some(DepParseView::Dep(d))
            && d.transitive == VersionView::Transitive(v) && d.pinned is NotApplicable,
{
    let line = ns + seq![':'] + name + seq![':'] + v;
    let c = ns.len() as int;
    let k = c + 1 + name.len();
    assert forall|j: int| 0 <= j < line.len() implies line[j] != '>' && line[j] != '(' && (j < k
        && j != c ==> line[j] != ':') by {
        if j < c {
            assert(line[j] == ns[j]);
        } else if c < j < k {
            assert(line[j] == name[j - c - 1]);
        } else if j > k {
            assert(line[j] == v[j - k - 1]);
        }
    }
    lemma_find_char_at(line, ':', 0, c);
    lemma_find_char_at(line, ':', c + 1, k);
    lemma_find_arrow_none(line, 0);
    lemma_find_char_none(line, '(', 0);
    assert(line.subrange(k + 1, line.len() as int) =~= v);
}

/// A line `ns:name -> V` carries pinned `V` and no transitive version.
pub proof fn lemma_decode_pinned(ns: Seq<char>, name: Seq<char>, v: Seq<char>)
    requires
        lacks(ns, ':'),
        lacks(name, ':'),
        lacks(v, ':'),
        lacks(ns, '>'),
        lacks(name, '>'),
        lacks(ns, '('),
        lacks(name, '('),
        lacks(v, '('),
    ensures
        decode_line(ns + seq![':'] + name + arrow_text() + v) matches Some(DepParseView::Dep(d))
            && d.transitive is NotApplicable && d.pinned == VersionView::Pinned(v),
{
    let line = ns + seq![':'] + name + arrow_text() + v;
    let c = ns.len() as int;
    let a = c + 1 + name.len();
    assert forall|j: int| 0 <= j < line.len() implies line[j] != '(' && (j != c ==> line[j] != ':')
        && (j < a ==> line[j] != '>') by {
        if j < c {
            assert(line[j] == ns[j]);
        } else if c < j < a {
            assert(line[j] == name[j - c - 1]);
        } else if j >= a + 4 {
            assert(line[j] == v[j - a - 4]);
        }
    }
    lemma_find_char_at(line, ':', 0, c);
    lemma_find_char_none(line, ':', c + 1);
    lemma_find_arrow_at(line, 0, a);
    lemma_find_char_none(line, '(', 0);
    assert(line.subrange(a + 4, line.len() as int) =~= v);
}

/// A line `ns:name:V1 -> V2` carries transitive `V1` and pinned `V2`.
pub proof fn lemma_decode_both(ns: Seq<char>, name: Seq<char>, v1: Seq<char>, v2: Seq<char>)
    requires
        lacks(ns, ':'),
        lacks(name, ':'),
        lacks(ns, '>'),
        lacks(name, '>'),
        lacks(v1, '>'),
        lacks(ns, '('),
        lacks(name, '('),
        lacks(v1, '('),
        lacks(v2, '('),
    ensures
        decode_line(ns + seq![':'] + name + seq![':'] + v1 + arrow_text() + v2) matches Some(
            DepParseView::Dep(d),
        ) && d.transitive == VersionView::Transitive(v1) && d.pinned == VersionView::Pinned(v2),
{
    let line = ns + seq![':'] + name + seq![':'] + v1 + arrow_text() + v2;
    let c = ns.len() as int;
    let k = c + 1 + name.len();
    let a = k + 1 + v1.len();
    assert forall|j: int| 0 <= j < line.len() implies line[j] != '(' && (j < k && j != c
        ==> line[j] != ':') && (j < a ==> line[j] != '>') by {
        if j < c {
            assert(line[j] == ns[j]);
        } else if c < j < k {
            assert(line[j] == name[j - c - 1]);
        } else if k < j < a {
            assert(line[j] == v1[j - k - 1]);
        } else if j >= a + 4 {
            assert(line[j] == v2[j - a - 4]);
        }
    }
    lemma_find_char_at(line, ':', 0, c);
    lemma_find_char_at(line, ':', c + 1, k);
    lemma_find_arrow_at(line, 0, a);
    lemma_find_char_none(line, '(', 0);
    assert(line.subrange(k + 1, a) =~= v1);
    assert(line.subrange(a + 4, line.len() as int) =~= v2);
}

/// A line without a colon, other than the `No dependencies` sentinel, fails to decode.
pub proof fn lemma_decode_no_colon(line: Seq<char>)
    requires
        lacks(line, ':'),
        line != no_deps_text(),
    ensures
        decode_line(line) is None,
{
    lemma_find_char_none(line, ':', 0);
}

} // verus!
