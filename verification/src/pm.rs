//! Parsing the package manager's search output: header lines name a
//! repository, a package and a version; indented lines continue the
//! description of the package above them.

use vstd::prelude::*;

use crate::strutil;
use crate::strutil::{find_from, is_space_char, lines_spec, matches_at, starts_with_spec,
    trim_spec};

verus! {

/// Where a search hit comes from.
#[derive(Debug, Clone, Copy, PartialEq, Eq, Structural)]
pub enum PackageSource {
    Repo,
    Aur,
}

/// One search hit.
#[derive(Debug, Clone)]
pub struct SearchResult {
    pub name: String,
    pub ver: String,
    pub source: PackageSource,
    pub repo: String,
    pub description: String,
    pub installed: bool,
}

/// The mathematical content of a [`SearchResult`].
pub ghost struct SearchResultView {
    pub name: Seq<char>,
    pub ver: Seq<char>,
    pub source: PackageSource,
    pub repo: Seq<char>,
    pub description: Seq<char>,
    pub installed: bool,
}

impl View for SearchResult {
    type V = SearchResultView;

    open spec fn view(&self) -> SearchResultView {
        SearchResultView {
            name: self.name@,
            ver: self.ver@,
            source: self.source,
            repo: self.repo@,
            description: self.description@,
            installed: self.installed,
        }
    }
}

/// How many characters the first whitespace-free token of `s` has.
pub open spec fn token_end(s: Seq<char>) -> int
    decreases s.len(),
{
    if s.len() == 0 {
        0
    } else if is_space_char(s[0]) {
        0
    } else {
        1 + token_end(s.drop_first())
    }
}

proof fn lemma_token_end_bounds(s: Seq<char>)
    ensures
        0 <= token_end(s) <= s.len(),
        forall|j: int| 0 <= j < token_end(s) ==> !is_space_char(s[j]),
        token_end(s) < s.len() ==> is_space_char(s[token_end(s)]),
    decreases s.len(),
{
    if s.len() > 0 && !is_space_char(s[0]) {
        lemma_token_end_bounds(s.drop_first());
        assert forall|j: int| 0 <= j < token_end(s) implies !is_space_char(s[j]) by {
            if j > 0 {
                assert(s.drop_first()[j - 1] == s[j]);
            }
        }
        if token_end(s) < s.len() {
            assert(s[token_end(s)] == s.drop_first()[token_end(s) - 1]);
        }
    }
}

/// A stopped parse stays stopped.
proof fn lemma_search_fold_none(lines: Seq<Seq<char>>)
    ensures
        search_fold(None, lines) is None,
    decreases lines.len(),
{
    if lines.len() > 0 {
        lemma_search_fold_none(lines.drop_first());
    }
}

/// The whitespace-separated tokens of `s`, in order.
pub open spec fn tokens_spec(s: Seq<char>) -> Seq<Seq<char>>
    decreases s.len(),
{
    if s.len() == 0 {
        Seq::empty()
    } else if is_space_char(s[0]) {
        tokens_spec(s.drop_first())
    } else {
        let k = token_end(s);
        if 1 <= k <= s.len() {
            seq![s.subrange(0, k)] + tokens_spec(s.subrange(k, s.len() as int))
        } else {
            Seq::empty()
        }
    }
}

/// Splits `s` on whitespace, as [`tokens_spec`] describes.
pub fn split_tokens(s: &str) -> (r: Vec<String>)
    ensures
        r.deep_view() == tokens_spec(s@),
{
    let n: usize = s.unicode_len();
    let mut out: Vec<String> = Vec::new();
    let mut i: usize = 0;
    proof {
        assert(s@.skip(0) =~= s@);
    }
    while i < n
        invariant
            0 <= i <= n,
            n == s@.len(),
            tokens_spec(s@) == out.deep_view() + tokens_spec(s@.skip(i as int)),
        decreases n - i,
    {
        if strutil::is_space(s.get_char(i)) {
            proof {
                assert(s@.skip(i as int)[0] == s@[i as int]);
                assert(s@.skip(i as int).drop_first() =~= s@.skip(i + 1));
            }
            i = i + 1;
        } else {
            let mut k: usize = i;
            while k < n && !strutil::is_space(s.get_char(k))
                invariant
                    i <= k <= n,
                    n == s@.len(),
                    forall|j: int| i <= j < k ==> !is_space_char(s@[j]),
                decreases n - k,
            {
                k = k + 1;
            }
            let ghost rem = s@.skip(i as int);
            proof {
                lemma_token_end_bounds(rem);
                assert forall|j: int| 0 <= j < k - i implies !is_space_char(rem[j]) by {
                    assert(rem[j] == s@[i + j]);
                }
                assert(token_end(rem) == k - i) by {
                    if token_end(rem) < k - i {
                        assert(is_space_char(rem[token_end(rem)]));
                    }
                    if token_end(rem) > k - i {
                        assert(k < n);
                        assert(rem[k - i] == s@[k as int]);
                        assert(!is_space_char(rem[k - i]));
                    }
                }
                assert(rem.subrange(0, k - i) =~= s@.subrange(i as int, k as int));
                assert(rem.subrange(k - i, rem.len() as int) =~= s@.skip(k as int));
                assert(tokens_spec(rem) == seq![s@.subrange(i as int, k as int)] + tokens_spec(
                    s@.skip(k as int),
                ));
            }
            let piece = s.substring_char(i, k);
            let ghost before = out.deep_view();
            out.push(piece.to_owned());
            proof {
                assert(out.deep_view() =~= before.push(s@.subrange(i as int, k as int)));
                assert(out.deep_view() + tokens_spec(s@.skip(k as int)) =~= before + (seq![
                    s@.subrange(i as int, k as int),
                ] + tokens_spec(s@.skip(k as int))));
            }
            i = k;
        }
    }
    proof {
        assert(s@.skip(n as int) =~= Seq::<char>::empty());
        assert(out.deep_view() + tokens_spec(s@.skip(n as int)) =~= out.deep_view());
    }
    out
}

/// A header line of the search output: it has a `/` and a space, starts
/// with neither, and its first token has the `/`.
pub open spec fn is_header_spec(s: Seq<char>) -> bool {
    &&& s.contains('/')
    &&& s.contains(' ')
    &&& !(s.len() > 0 && s[0] == ' ')
    &&& !(s.len() > 0 && s[0] == '[')
    &&& (if tokens_spec(s).len() > 0 {
        tokens_spec(s)[0].contains('/')
    } else {
        false
    })
}

/// Whether `line` is a header line, as [`is_header_spec`] describes.
pub fn is_header_line(line: &str) -> (r: bool)
    ensures
        r == is_header_spec(line@),
{
    let n: usize = line.unicode_len();
    if n == 0 {
        proof {
            if line@.contains('/') {
                let i = choose|i: int| 0 <= i < line@.len() && line@[i] == '/';
            }
        }
        return false;
    }
    let has_slash = contains_char(line, '/');
    let has_space = contains_char(line, ' ');
    if !has_slash || !has_space {
        return false;
    }
    let c0 = line.get_char(0);
    if c0 == ' ' || c0 == '[' {
        return false;
    }
    let tokens = split_tokens(line);
    if tokens.len() == 0 {
        return false;
    }
    proof {
        assert(tokens.deep_view()[0] == tokens@[0]@);
    }
    contains_char(tokens[0].as_str(), '/')
}

/// Whether `s` has the character `c`.
fn contains_char(s: &str, c: char) -> (r: bool)
    ensures
        r == s@.contains(c),
{
    let n: usize = s.unicode_len();
    let mut i: usize = 0;
    while i < n
        invariant
            0 <= i <= n,
            n == s@.len(),
            forall|j: int| 0 <= j < i ==> s@[j] != c,
        decreases n - i,
    {
        if s.get_char(i) == c {
            return true;
        }
        i = i + 1;
    }
    proof {
        if s@.contains(c) {
            let j = choose|j: int| 0 <= j < s@.len() && s@[j] == c;
        }
    }
    false
}

/// A `repo/name` pair split at its first `/`.
pub open spec fn repo_name_split(s: Seq<char>) -> Option<(Seq<char>, Seq<char>)> {
    match find_from(s, seq!['/'], 0) {
        Some(i) => Some((s.subrange(0, i), s.subrange(i + 1, s.len() as int))),
        None => None,
    }
}

/// Splits `repo/name` at its first `/`; a value without `/` is an error.
pub fn parse_repo_name<'a>(repo_name: &'a str) -> (r: Result<(&'a str, &'a str), String>)
    ensures
        match r {
            Ok(p) => repo_name_split(repo_name@) == Some((p.0@, p.1@)),
            Err(_) => repo_name_split(repo_name@) is None,
        },
{
    proof {
        reveal_strlit("/");
        assert("/"@ =~= seq!['/']);
    }
    let n: usize = repo_name.unicode_len();
    match strutil::find(repo_name, "/") {
        Some(i) => {
            let repo = repo_name.substring_char(0, i);
            let name = repo_name.substring_char(i + 1, n);
            Ok((repo, name))
        },
        None => {
            let mut e = String::from_str("Invalid repo/name format: ");
            e.append(repo_name);
            Err(e)
        },
    }
}

/// What a header line describes, when it is complete: the package, its
/// version, its repository, whether it is installed, and an empty
/// description. A header without a version or without `/` in its first
/// token yields nothing.
pub open spec fn header_result_spec(line: Seq<char>) -> Option<SearchResultView> {
    let ts = tokens_spec(line);
    if ts.len() == 0 {
        None
    } else {
        match repo_name_split(ts[0]) {
            Some(rn) => if ts.len() >= 2 {
                Some(
                    SearchResultView {
                        name: rn.1,
                        ver: ts[1],
                        source: if rn.0 == "aur"@ {
                            PackageSource::Aur
                        } else {
                            PackageSource::Repo
                        },
                        repo: rn.0,
                        description: Seq::empty(),
                        installed: find_from(line, "[installed]"@, 0) is Some,
                    },
                )
            } else {
                None
            },
            None => None,
        }
    }
}

/// Parses one header line, as [`header_result_spec`] describes.
pub fn parse_header_line(line: &str) -> (r: Result<SearchResult, String>)
    ensures
        match r {
            Ok(sr) => header_result_spec(line@) == Some(sr@),
            Err(_) => header_result_spec(line@) is None,
        },
{
    let tokens = split_tokens(line);
    if tokens.len() == 0 {
        return Err("Empty header line".to_owned());
    }
    proof {
        assert(tokens.deep_view()[0] == tokens@[0]@);
    }
    let (repo, name) = match parse_repo_name(tokens[0].as_str()) {
        Ok(p) => p,
        Err(e) => {
            return Err(e);
        },
    };
    if tokens.len() < 2 {
        return Err("Missing version in header line".to_owned());
    }
    proof {
        assert(tokens.deep_view()[1] == tokens@[1]@);
    }
    let installed = strutil::find(line, "[installed]").is_some();
    let source = if strutil::str_eq(repo, "aur") {
        PackageSource::Aur
    } else {
        PackageSource::Repo
    };
    Ok(SearchResult {
        name: name.to_owned(),
        ver: tokens[1].clone(),
        source,
        repo: repo.to_owned(),
        description: String::new(),
        installed,
    })
}

/// The error messages that mark a transient network failure, worth a
/// bounded retry: any other failure is permanent and fails at once.
pub open spec fn transient_error_spec(err: Seq<char>) -> bool {
    ||| find_from(err, "Connection reset by peer"@, 0) is Some
    ||| find_from(err, "error sending request"@, 0) is Some
    ||| find_from(err, "error trying to connect"@, 0) is Some
    ||| find_from(err, "os error 104"@, 0) is Some
}

/// Whether a failure message names a transient network error, as
/// [`transient_error_spec`] describes.
pub fn is_transient_error(err: &str) -> (r: bool)
    ensures
        r == transient_error_spec(err@),
{
    strutil::find(err, "Connection reset by peer").is_some() || strutil::find(
        err,
        "error sending request",
    ).is_some() || strutil::find(err, "error trying to connect").is_some() || strutil::find(
        err,
        "os error 104",
    ).is_some()
}

/// The seconds to wait before retry number `attempt`: one second, doubled
/// each attempt.
pub fn backoff_delay_secs(attempt: u64) -> (r: u64)
    requires
        attempt < 64,
    ensures
        r == (1u64 << attempt),
{
    1u64 << attempt
}

/// Whether a failed operation is tried again: only a transient network
/// error, and only while attempts remain.
pub fn should_retry(err: &str, attempt: u64, max_retries: u64) -> (r: bool)
    ensures
        r == (transient_error_spec(err@) && attempt < max_retries),
{
    is_transient_error(err) && attempt < max_retries
}

/// The parser's state between two lines of the search output.
pub ghost struct SearchParseState {
    pub results: Seq<SearchResultView>,
    pub current: Option<SearchResultView>,
}

/// What one output line does to the state: a header line finishes the
/// previous hit and opens a new one — an incomplete header stops the
/// parse — and an indented line extends the open hit's description.
pub open spec fn search_step(
    st: Option<SearchParseState>,
    raw: Seq<char>,
) -> Option<SearchParseState> {
    match st {
        None => None,
        Some(s) => {
            let t = trim_spec(raw);
            if t.len() == 0 {
                Some(s)
            } else if is_header_spec(t) {
                match header_result_spec(t) {
                    Some(h) => Some(
                        SearchParseState {
                            results: match s.current {
                                Some(c) => s.results.push(c),
                                None => s.results,
                            },
                            current: Some(h),
                        },
                    ),
                    None => None,
                }
            } else if starts_with_spec(raw, "    "@) {
                match s.current {
                    Some(c) => Some(
                        SearchParseState {
                            results: s.results,
                            current: Some(
                                SearchResultView {
                                    description: if c.description.len() == 0 {
                                        t
                                    } else {
                                        c.description + " "@ + t
                                    },
                                    ..c
                                },
                            ),
                        },
                    ),
                    None => Some(s),
                }
            } else {
                Some(s)
            }
        },
    }
}

/// The fold of [`search_step`] over the output lines.
pub open spec fn search_fold(
    st: Option<SearchParseState>,
    lines: Seq<Seq<char>>,
) -> Option<SearchParseState>
    decreases lines.len(),
{
    if lines.len() == 0 {
        st
    } else {
        search_fold(search_step(st, lines[0]), lines.drop_first())
    }
}

/// What parsing the whole output yields: the finished hits, the open one
/// appended, or nothing when a header line was incomplete.
pub open spec fn search_output_spec(output: Seq<char>) -> Option<Seq<SearchResultView>> {
    let st0 = Some(SearchParseState { results: Seq::empty(), current: None });
    match search_fold(st0, lines_spec(output)) {
        Some(s) => Some(
            match s.current {
                Some(c) => s.results.push(c),
                None => s.results,
            },
        ),
        None => None,
    }
}

/// Parses the search output, as [`search_output_spec`] describes.
pub fn parse_paru_search_output(output: &str) -> (r: Result<Vec<SearchResult>, String>)
    ensures
        match r {
            Ok(v) => search_output_spec(output@) == Some(
                v@.map_values(|x: SearchResult| x@),
            ),
            Err(_) => search_output_spec(output@) is None,
        },
{
    let lines = strutil::split_lines(output);
    let n: usize = lines.len();
    let mut results: Vec<SearchResult> = Vec::new();
    let mut current: Option<SearchResult> = None;
    let ghost st0 = Some(
        SearchParseState { results: Seq::<SearchResultView>::empty(), current: None },
    );
    let mut i: usize = 0;
    proof {
        assert(lines.deep_view().skip(0) =~= lines.deep_view());
        assert(results@.map_values(|x: SearchResult| x@) =~= Seq::<SearchResultView>::empty());
    }
    while i < n
        invariant
            0 <= i <= n,
            n == lines.len(),
            st0 == Some(
                SearchParseState { results: Seq::<SearchResultView>::empty(), current: None },
            ),
            lines.deep_view() == lines_spec(output@),
            search_fold(st0, lines.deep_view()) == search_fold(
                Some(
                    SearchParseState {
                        results: results@.map_values(|x: SearchResult| x@),
                        current: match current {
                            Some(c) => Some(c@),
                            None => None,
                        },
                    },
                ),
                lines.deep_view().skip(i as int),
            ),
        decreases n - i,
    {
        proof {
            assert(lines.deep_view().skip(i as int)[0] == lines.deep_view()[i as int]);
            assert(lines.deep_view().skip(i as int).drop_first() =~= lines.deep_view().skip(
                i + 1,
            ));
        }
        let raw = lines[i].as_str();
        let trimmed = strutil::trim(raw);
        if trimmed.is_empty() {
            // Blank lines separate entries and carry nothing.
        } else if is_header_line(trimmed) {
            let header = match parse_header_line(trimmed) {
                Ok(h) => h,
                Err(e) => {
                    proof {
                        lemma_search_fold_none(lines.deep_view().skip(i + 1));
                    }
                    return Err(e);
                },
            };
            let ghost before = results@.map_values(|x: SearchResult| x@);
            match current {
                Some(done) => {
                    results.push(done);
                    proof {
                        assert(results@.map_values(|x: SearchResult| x@) =~= before.push(
                            results@[results@.len() - 1]@,
                        ));
                    }
                },
                None => {},
            }
            current = Some(header);
        } else if strutil::starts_with(raw, "    ") {
            match current {
                Some(cur) => {
                    let mut c = cur;
                    if c.description.as_str().is_empty() {
                        c.description = trimmed.to_owned();
                    } else {
                        c.description.append(" ");
                        c.description.append(trimmed);
                    }
                    current = Some(c);
                },
                None => {
                    current = None;
                },
            }
        }
        i = i + 1;
    }
    proof {
        assert(lines.deep_view().skip(n as int) =~= Seq::<Seq<char>>::empty());
    }
    match current {
        Some(done) => {
            let ghost before = results@.map_values(|x: SearchResult| x@);
            results.push(done);
            proof {
                assert(results@.map_values(|x: SearchResult| x@) =~= before.push(
                    results@[results@.len() - 1]@,
                ));
            }
        },
        None => {},
    }
    Ok(results)
}

} // verus!
