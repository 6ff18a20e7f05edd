//! The round-trip law: parsing a configuration's canonical text yields the
//! configuration's package names, group names and environment entries back.
//!
//! The law holds for configurations whose names and values are *clean* —
//! non-empty, trimmed, free of newlines, and not shaped like directive
//! markers. Parsing an ordinary document yields clean values; only
//! degenerate directives escape them (`@pkg #x` declares the name `#x`,
//! whose canonical line re-reads as a comment, and `@group ` with nothing
//! after it declares the empty group name). Directive payloads are not
//! claimed: the canonical writer is not a lossless serializer of every
//! directive variant.

use vstd::prelude::*;

use crate::clean::{directive_names, env_lines, group_lines, loose_names, pkg_block, pkg_lines,
    spec_optimize};
use crate::config::{assoc_get, assoc_keys, assoc_unique, config_wf, lemma_assoc_set_unique,
    ConfigView, Package, PackageView};
use crate::parser::{dispatch_line, initial_state, parse_lines_spec, spec_parse, step_line,
    ParseState};
use crate::strutil::{find_from, is_space_char, join_spec, lemma_find_from_some, lemma_join_snoc,
    lemma_sort_contains, lines_spec, matches_at, sort_lex_spec, split_once_spec, starts_with_spec,
    trim_spec};

verus! {

/// A piece of text with no newline: it stays one line.
pub open spec fn single_line(s: Seq<char>) -> bool {
    !s.contains('\n')
}

/// A clean word: non-empty, trimmed, one line.
pub open spec fn clean_word(s: Seq<char>) -> bool {
    s.len() > 0 && trim_spec(s) == s && single_line(s)
}

/// A clean package name: a clean word that no directive marker opens.
pub open spec fn clean_name(s: Seq<char>) -> bool {
    clean_word(s) && s[0] != '@' && s[0] != ':' && s[0] != '#'
}

/// A clean environment key: trimmed, one line, without `=`.
pub open spec fn clean_key(s: Seq<char>) -> bool {
    trim_spec(s) == s && single_line(s) && !s.contains('=')
}

/// A clean environment value: trimmed, one line.
pub open spec fn clean_value(s: Seq<char>) -> bool {
    trim_spec(s) == s && single_line(s)
}

/// A text that neither starts nor ends with whitespace is its own trim.
proof fn lemma_trim_identity(s: Seq<char>)
    requires
        s.len() == 0 || (!is_space_char(s[0]) && !is_space_char(s[s.len() - 1])),
    ensures
        trim_spec(s) == s,
{
}

/// Trimming a text with a non-space head keeps that head.
proof fn lemma_trim_keeps_head(s: Seq<char>)
    requires
        s.len() > 0,
        !is_space_char(s[0]),
    ensures
        trim_spec(s).len() > 0,
        trim_spec(s)[0] == s[0],
    decreases s.len(),
{
    assert(crate::strutil::drop_leading_spaces(s) == s);
    lemma_drop_trailing_keeps_head(s);
}

proof fn lemma_drop_trailing_keeps_head(s: Seq<char>)
    requires
        s.len() > 0,
        !is_space_char(s[0]),
    ensures
        crate::strutil::drop_trailing_spaces(s).len() > 0,
        crate::strutil::drop_trailing_spaces(s)[0] == s[0],
    decreases s.len(),
{
    if is_space_char(s[s.len() - 1]) {
        assert(s.drop_last()[0] == s[0]);
        lemma_drop_trailing_keeps_head(s.drop_last());
    }
}

/// The first occurrence of character `c` is at `i` when `c` is there and
/// nowhere earlier.
proof fn lemma_find_char_at(s: Seq<char>, c: char, i: int, k: int)
    requires
        0 <= k <= i < s.len(),
        s[i] == c,
        forall|j: int| k <= j < i ==> s[j] != c,
    ensures
        find_from(s, seq![c], k) == Some(i),
    decreases i - k,
{
    assert(matches_at(s, seq![c], i)) by {
        assert(s.subrange(i, i + 1) =~= seq![c]);
    }
    if k < i {
        assert(!matches_at(s, seq![c], k)) by {
            if matches_at(s, seq![c], k) {
                assert(s.subrange(k, k + 1)[0] == s[k]);
            }
        }
        lemma_find_char_at(s, c, i, k + 1);
    }
}

/// A character that occurs nowhere at or after `k` is not found.
proof fn lemma_find_char_none(s: Seq<char>, c: char, k: int)
    requires
        0 <= k,
        forall|j: int| k <= j < s.len() ==> s[j] != c,
    ensures
        find_from(s, seq![c], k) is None,
    decreases s.len() + 1 - k,
{
    if k + 1 <= s.len() {
        assert(!matches_at(s, seq![c], k)) by {
            if matches_at(s, seq![c], k) {
                assert(s.subrange(k, k + 1)[0] == s[k]);
            }
        }
        lemma_find_char_none(s, c, k + 1);
    }
}

/// An unfound pattern matches nowhere.
proof fn lemma_find_none_sound(s: Seq<char>, pat: Seq<char>, k: int)
    requires
        0 <= k,
        find_from(s, pat, k) is None,
    ensures
        forall|j: int| k <= j ==> !matches_at(s, pat, j),
    decreases s.len() + 1 - k,
{
    if k + pat.len() <= s.len() {
        lemma_find_none_sound(s, pat, k + 1);
        assert forall|j: int| k <= j implies !matches_at(s, pat, j) by {
            if j > k {
                assert(!matches_at(s, pat, j));
            }
        }
    } else {
        assert forall|j: int| k <= j implies !matches_at(s, pat, j) by {
            if matches_at(s, pat, j) {
                assert(j + pat.len() <= s.len());
            }
        }
    }
}

/// A text without newlines is one line.
proof fn lemma_lines_single(x: Seq<char>)
    requires
        single_line(x),
    ensures
        lines_spec(x) == seq![x],
{
    assert forall|j: int| 0 <= j < x.len() implies x[j] != '\n' by {
        if x[j] == '\n' {
            assert(x.contains('\n'));
        }
    }
    lemma_find_char_none(x, '\n', 0);
}

/// Splitting distributes over a newline: the pieces of `a`, then the
/// pieces of `b`.
proof fn lemma_lines_concat(a: Seq<char>, b: Seq<char>)
    ensures
        lines_spec(a + seq!['\n'] + b) == lines_spec(a) + lines_spec(b),
    decreases a.len(),
{
    let s = a + seq!['\n'] + b;
    assert(s.len() == a.len() + 1 + b.len());
    assert(forall|j: int| 0 <= j < a.len() ==> s[j] == a[j]);
    assert(s[a.len() as int] == '\n');
    assert(forall|j: int| 0 <= j < b.len() ==> s[a.len() + 1 + j] == b[j]);
    match find_from(a, seq!['\n'], 0) {
        None => {
            lemma_find_none_sound(a, seq!['\n'], 0);
            assert forall|j: int| 0 <= j < a.len() implies a[j] != '\n' by {
                assert(!matches_at(a, seq!['\n'], j));
                if a[j] == '\n' {
                    assert(a.subrange(j, j + 1) =~= seq!['\n']);
                }
            }
            lemma_find_char_at(s, '\n', a.len() as int, 0);
            assert(lines_spec(s) == seq![s.subrange(0, a.len() as int)] + lines_spec(
                s.subrange(a.len() as int + 1, s.len() as int),
            ));
            assert(s.subrange(0, a.len() as int) =~= a);
            assert(s.subrange(a.len() as int + 1, s.len() as int) =~= b);
            assert(lines_spec(a) == seq![a]);
        },
        Some(i) => {
            lemma_find_from_some(a, seq!['\n'], 0);
            assert(a.subrange(i, i + 1)[0] == a[i]);
            assert(a[i] == '\n');
            assert forall|j: int| 0 <= j < i implies s[j] != '\n' by {
                assert(!matches_at(a, seq!['\n'], j));
                if a[j] == '\n' {
                    assert(a.subrange(j, j + 1) =~= seq!['\n']);
                }
            }
            lemma_find_char_at(s, '\n', i, 0);
            let a1 = a.subrange(i + 1, a.len() as int);
            lemma_lines_concat(a1, b);
            assert(s.subrange(0, i) =~= a.subrange(0, i));
            assert(s.subrange(i + 1, s.len() as int) =~= a1 + seq!['\n'] + b);
            assert(lines_spec(s) == seq![a.subrange(0, i)] + (lines_spec(a1) + lines_spec(b)));
            assert(lines_spec(a) == seq![a.subrange(0, i)] + lines_spec(a1));
            assert(seq![a.subrange(0, i)] + (lines_spec(a1) + lines_spec(b)) =~= (seq![
                a.subrange(0, i),
            ] + lines_spec(a1)) + lines_spec(b));
        },
    }
}

/// Folding lines concatenates.
proof fn lemma_parse_lines_concat(st: ParseState, a: Seq<Seq<char>>, b: Seq<Seq<char>>)
    ensures
        parse_lines_spec(st, a + b) == parse_lines_spec(parse_lines_spec(st, a), b),
    decreases a.len(),
{
    if a.len() == 0 {
        assert(a + b =~= b);
    } else {
        let st1 = step_line(st, a[0]);
        lemma_parse_lines_concat(st1, a.drop_first(), b);
        assert((a + b)[0] == a[0]);
        assert((a + b).drop_first() =~= a.drop_first() + b);
    }
}

/// A blank line changes nothing.
proof fn lemma_blank_line(st: ParseState)
    ensures
        step_line(st, Seq::<char>::empty()) == st,
{
    assert(trim_spec(Seq::<char>::empty()) == Seq::<char>::empty());
}

/// Dropping whitespace never lengthens a text.
proof fn lemma_drop_len(s: Seq<char>)
    ensures
        crate::strutil::drop_leading_spaces(s).len() <= s.len(),
        crate::strutil::drop_trailing_spaces(s).len() <= s.len(),
    decreases s.len(),
{
    if s.len() > 0 {
        lemma_drop_len(s.drop_first());
        lemma_drop_len(s.drop_last());
    }
}

/// A text equal to its own trim has no whitespace at either end.
proof fn lemma_trimmed_ends(s: Seq<char>)
    requires
        trim_spec(s) == s,
        s.len() > 0,
    ensures
        !is_space_char(s[0]),
        !is_space_char(s[s.len() - 1]),
{
    if is_space_char(s[0]) {
        let d = crate::strutil::drop_leading_spaces(s);
        assert(d == crate::strutil::drop_leading_spaces(s.drop_first()));
        lemma_drop_len(s.drop_first());
        lemma_drop_len(d);
        assert(trim_spec(s).len() <= d.len());
        assert(false);
    }
    let d = crate::strutil::drop_leading_spaces(s);
    assert(d == s);
    if is_space_char(s[s.len() - 1]) {
        let t = crate::strutil::drop_trailing_spaces(s);
        assert(t == crate::strutil::drop_trailing_spaces(s.drop_last()));
        lemma_drop_len(s.drop_last());
        assert(false);
    }
}

/// A candidate prefix refuted by one position: a spot inside the pattern
/// that the text lacks or differs on.
proof fn lemma_not_prefix(s: Seq<char>, p: Seq<char>, m: int)
    requires
        0 <= m < p.len(),
        m >= s.len() || s[m] != p[m],
    ensures
        !starts_with_spec(s, p),
{
    if starts_with_spec(s, p) {
        assert(s.subrange(0, p.len() as int)[m] == s[m]);
    }
}

/// The characters of every directive marker of the grammar.
proof fn lemma_parser_literals()
    ensures
        "@package "@ =~= seq!['@', 'p', 'a', 'c', 'k', 'a', 'g', 'e', ' '],
        "@pkg "@ =~= seq!['@', 'p', 'k', 'g', ' '],
        "@packages"@ =~= seq!['@', 'p', 'a', 'c', 'k', 'a', 'g', 'e', 's'],
        "@pkgs"@ =~= seq!['@', 'p', 'k', 'g', 's'],
        ":config "@ =~= seq![':', 'c', 'o', 'n', 'f', 'i', 'g', ' '],
        ":cfg "@ =~= seq![':', 'c', 'f', 'g', ' '],
        ":service "@ =~= seq![':', 's', 'e', 'r', 'v', 'i', 'c', 'e', ' '],
        ":env "@ =~= seq![':', 'e', 'n', 'v', ' '],
        "@env "@ =~= seq!['@', 'e', 'n', 'v', ' '],
        "@group "@ =~= seq!['@', 'g', 'r', 'o', 'u', 'p', ' '],
        "="@ =~= seq!['='],
{
    reveal_strlit("@package ");
    reveal_strlit("@pkg ");
    reveal_strlit("@packages");
    reveal_strlit("@pkgs");
    reveal_strlit(":config ");
    reveal_strlit(":cfg ");
    reveal_strlit(":service ");
    reveal_strlit(":env ");
    reveal_strlit("@env ");
    reveal_strlit("@group ");
    reveal_strlit("=");
}

/// What one `@group` line of the canonical text does: it records the
/// group and closes any open block or section.
proof fn lemma_group_line(st: ParseState, g: Seq<char>)
    requires
        clean_word(g),
    ensures
        step_line(st, "@group "@ + g) == (ParseState {
            cfg: ConfigView { groups: st.cfg.groups.push(g), ..st.cfg },
            current: None,
            in_packages: false,
        }),
{
    lemma_parser_literals();
    let line = "@group "@ + g;
    lemma_trimmed_ends(g);
    assert(line[0] == '@');
    assert(line[line.len() - 1] == g[g.len() - 1]);
    lemma_trim_identity(line);
    lemma_not_prefix(line, "@package "@, 1);
    lemma_not_prefix(line, "@pkg "@, 1);
    assert(line != "@packages"@) by {
        if line == "@packages"@ {
            assert(line[1] == 'p');
        }
    }
    assert(line != "@pkgs"@) by {
        if line == "@pkgs"@ {
            assert(line[1] == 'p');
        }
    }
    lemma_not_prefix(line, ":config "@, 0);
    lemma_not_prefix(line, ":cfg "@, 0);
    lemma_not_prefix(line, ":service "@, 0);
    lemma_not_prefix(line, ":env "@, 0);
    lemma_not_prefix(line, "@env "@, 1);
    assert(starts_with_spec(line, "@group "@)) by {
        assert(line.subrange(0, 7) =~= "@group "@);
    }
    assert(line.subrange("@group "@.len() as int, line.len() as int) =~= g);
}

/// What one `@env` line of the canonical text does: it binds the global
/// variable and closes a bare-name section.
proof fn lemma_env_line(st: ParseState, k: Seq<char>, v: Seq<char>)
    requires
        clean_key(k),
        clean_value(v),
    ensures
        step_line(st, "@env "@ + k + "="@ + v) == (ParseState {
            cfg: ConfigView {
                env_vars: crate::config::assoc_set(st.cfg.env_vars, k, v),
                ..st.cfg
            },
            current: st.current,
            in_packages: false,
        }),
{
    lemma_parser_literals();
    let line = "@env "@ + k + "="@ + v;
    let rest = line.subrange("@env "@.len() as int, line.len() as int);
    assert(line[0] == '@');
    assert(line[line.len() - 1] == (if v.len() > 0 {
        v[v.len() - 1]
    } else {
        '='
    }));
    if v.len() > 0 {
        lemma_trimmed_ends(v);
    }
    lemma_trim_identity(line);
    lemma_not_prefix(line, "@package "@, 1);
    lemma_not_prefix(line, "@pkg "@, 1);
    assert(line != "@packages"@) by {
        if line == "@packages"@ {
            assert(line[1] == 'p');
        }
    }
    assert(line != "@pkgs"@) by {
        if line == "@pkgs"@ {
            assert(line[1] == 'p');
        }
    }
    lemma_not_prefix(line, ":config "@, 0);
    lemma_not_prefix(line, ":cfg "@, 0);
    lemma_not_prefix(line, ":service "@, 0);
    lemma_not_prefix(line, ":env "@, 0);
    assert(starts_with_spec(line, "@env "@)) by {
        assert(line.subrange(0, 5) =~= "@env "@);
    }
    assert(rest =~= k + "="@ + v);
    assert forall|j: int| 0 <= j < k.len() implies rest[j] != '=' by {
        assert(rest[j] == k[j]);
        if k[j] == '=' {
            assert(k.contains('='));
        }
    }
    assert(rest[k.len() as int] == '=');
    lemma_find_char_at(rest, '=', k.len() as int, 0);
    assert(find_from(rest, "="@, 0) == Some(k.len() as int)) by {
        assert("="@ =~= seq!['=']);
    }
    assert(split_once_spec(rest, "="@) == Some(
        (rest.subrange(0, k.len() as int), rest.subrange(k.len() as int + 1, rest.len() as int)),
    ));
    assert(rest.subrange(0, k.len() as int) =~= k);
    assert(rest.subrange(k.len() as int + 1, rest.len() as int) =~= v);
}

/// What one `@pkg` header line does: it declares the package and opens
/// its block.
proof fn lemma_pkg_header_line(st: ParseState, n: Seq<char>)
    requires
        clean_word(n),
    ensures
        step_line(st, "@pkg "@ + n) == (ParseState {
            cfg: ConfigView {
                packages: crate::config::assoc_set(st.cfg.packages, n, Package::empty_spec()),
                ..st.cfg
            },
            current: Some(n),
            in_packages: false,
        }),
{
    lemma_parser_literals();
    let line = "@pkg "@ + n;
    lemma_trimmed_ends(n);
    assert(line[0] == '@');
    assert(line[line.len() - 1] == n[n.len() - 1]);
    lemma_trim_identity(line);
    lemma_not_prefix(line, "@package "@, 2);
    assert(starts_with_spec(line, "@pkg "@)) by {
        assert(line.subrange(0, 5) =~= "@pkg "@);
    }
    assert(line.subrange("@pkg "@.len() as int, line.len() as int) =~= n);
}

/// What the `@pkgs` line does: it opens the bare-name section.
proof fn lemma_pkgs_line(st: ParseState)
    ensures
        step_line(st, "@pkgs"@) == (ParseState {
            cfg: st.cfg,
            current: None,
            in_packages: true,
        }),
{
    lemma_parser_literals();
    let line = "@pkgs"@;
    assert(line[0] == '@');
    assert(line[line.len() - 1] == 's');
    lemma_trim_identity(line);
    lemma_not_prefix(line, "@package "@, 5);
    lemma_not_prefix(line, "@pkg "@, 4);
    assert(line != "@packages"@) by {
        if line == "@packages"@ {
            assert(line.len() == 5);
        }
    }
}

/// What a `:`-directive line does to what the round trip claims: nothing.
/// It may rewrite the open package's directives, but the declared names,
/// the groups, the global environment, the open block and the section
/// flag all stay.
proof fn lemma_colon_line(st: ParseState, raw: Seq<char>)
    requires
        config_wf(st.cfg),
        raw.len() > 0,
        raw[0] == ':',
        single_line(raw),
    ensures
        ({
            let st1 = step_line(st, raw);
            &&& assoc_keys(st1.cfg.packages) == assoc_keys(st.cfg.packages)
            &&& st1.cfg.groups == st.cfg.groups
            &&& st1.cfg.env_vars == st.cfg.env_vars
            &&& st1.current == st.current
            &&& st1.in_packages == st.in_packages
            &&& config_wf(st1.cfg)
        }),
{
    lemma_parser_literals();
    lemma_trim_keeps_head(raw);
    let t = trim_spec(raw);
    crate::parser::lemma_dispatch_wf(st, t);
    lemma_not_prefix(t, "@package "@, 0);
    lemma_not_prefix(t, "@pkg "@, 0);
    assert(t != "@packages"@) by {
        if t == "@packages"@ {
            assert(t[0] == '@');
        }
    }
    assert(t != "@pkgs"@) by {
        if t == "@pkgs"@ {
            assert(t[0] == '@');
        }
    }
    lemma_not_prefix(t, "@env "@, 0);
    lemma_not_prefix(t, "@group "@, 0);
    let st1 = dispatch_line(st, t);
    if st.current is Some && assoc_get(st.cfg.packages, st.current->Some_0) is Some {
        let name = st.current->Some_0;
        assert forall|v: PackageView| true implies assoc_keys(
            #[trigger] crate::config::assoc_set(st.cfg.packages, name, v),
        ) == assoc_keys(st.cfg.packages) by {
            lemma_assoc_set_unique(st.cfg.packages, name, v);
        }
    }
}

/// What one bare name line inside an open section does: it declares the
/// package.
proof fn lemma_bare_line(st: ParseState, n: Seq<char>)
    requires
        clean_name(n),
        st.in_packages,
    ensures
        step_line(st, n) == (ParseState {
            cfg: ConfigView {
                packages: crate::config::assoc_set(st.cfg.packages, n, Package::empty_spec()),
                ..st.cfg
            },
            ..st
        }),
{
    lemma_parser_literals();
    lemma_trimmed_ends(n);
    lemma_trim_identity(n);
    lemma_not_prefix(n, "@package "@, 0);
    lemma_not_prefix(n, "@pkg "@, 0);
    assert(n != "@packages"@) by {
        if n == "@packages"@ {
            assert(n[0] == '@');
        }
    }
    assert(n != "@pkgs"@) by {
        if n == "@pkgs"@ {
            assert(n[0] == '@');
        }
    }
    lemma_not_prefix(n, ":config "@, 0);
    lemma_not_prefix(n, ":cfg "@, 0);
    lemma_not_prefix(n, ":service "@, 0);
    lemma_not_prefix(n, ":env "@, 0);
    lemma_not_prefix(n, "@env "@, 0);
    lemma_not_prefix(n, "@group "@, 0);
}

/// The lines of a blank-line-joined section list: each section's lines,
/// one empty line between two sections.
spec fn sections_lines(ss: Seq<Seq<char>>) -> Seq<Seq<char>>
    decreases ss.len(),
{
    if ss.len() == 0 {
        seq![Seq::<char>::empty()]
    } else if ss.len() == 1 {
        lines_spec(ss[0])
    } else {
        sections_lines(ss.drop_last()) + seq![Seq::<char>::empty()] + lines_spec(ss.last())
    }
}

/// Splitting the joined text gives exactly the section lines.
proof fn lemma_sections_lines(ss: Seq<Seq<char>>)
    ensures
        lines_spec(join_spec(ss, seq!['\n', '\n'])) == sections_lines(ss),
    decreases ss.len(),
{
    if ss.len() == 0 {
        lemma_find_char_none(Seq::<char>::empty(), '\n', 0);
        assert(lines_spec(Seq::<char>::empty()) =~= seq![Seq::<char>::empty()]);
    } else if ss.len() == 1 {
    } else {
        let d = ss.drop_last();
        let x = ss.last();
        assert(d.push(x) =~= ss);
        lemma_join_snoc(d, seq!['\n', '\n'], x);
        let jd = join_spec(d, seq!['\n', '\n']);
        assert(jd + seq!['\n', '\n'] + x =~= jd + seq!['\n'] + (seq!['\n'] + x));
        lemma_lines_concat(jd, seq!['\n'] + x);
        assert(Seq::<char>::empty() + seq!['\n'] + x =~= seq!['\n'] + x);
        lemma_lines_concat(Seq::<char>::empty(), x);
        lemma_find_char_none(Seq::<char>::empty(), '\n', 0);
        assert(lines_spec(Seq::<char>::empty()) =~= seq![Seq::<char>::empty()]);
        lemma_sections_lines(d);
        assert(lines_spec(join_spec(ss, seq!['\n', '\n'])) =~= sections_lines(d) + seq![
            Seq::<char>::empty(),
        ] + lines_spec(x));
    }
}

/// Joined single-line pieces split back into themselves.
proof fn lemma_lines_join_nl(ls: Seq<Seq<char>>)
    requires
        ls.len() >= 1,
        forall|i: int| 0 <= i < ls.len() ==> single_line(#[trigger] ls[i]),
    ensures
        lines_spec(join_spec(ls, seq!['\n'])) == ls,
    decreases ls.len(),
{
    if ls.len() == 1 {
        lemma_lines_single(ls[0]);
        assert(lines_spec(ls[0]) =~= ls);
    } else {
        let d = ls.drop_last();
        let x = ls.last();
        assert(d.push(x) =~= ls);
        lemma_join_snoc(d, seq!['\n'], x);
        lemma_lines_concat(join_spec(d, seq!['\n']), x);
        lemma_lines_join_nl(d);
        lemma_lines_single(x);
        assert(d + seq![x] =~= ls);
    }
}

/// Parsing a section list: each section's lines in turn, the blank line
/// between two sections changing nothing.
spec fn parse_sections(st: ParseState, ss: Seq<Seq<char>>) -> ParseState
    decreases ss.len(),
{
    if ss.len() == 0 {
        st
    } else {
        parse_lines_spec(parse_sections(st, ss.drop_last()), lines_spec(ss.last()))
    }
}

/// Folding all lines of the joined sections equals folding section by
/// section.
proof fn lemma_parse_sections(st: ParseState, ss: Seq<Seq<char>>)
    ensures
        parse_lines_spec(st, sections_lines(ss)) == parse_sections(st, ss),
    decreases ss.len(),
{
    if ss.len() == 0 {
        lemma_blank_line(st);
        assert(sections_lines(ss)[0] == Seq::<char>::empty());
        assert(sections_lines(ss).drop_first() =~= Seq::<Seq<char>>::empty());
        assert(parse_lines_spec(st, sections_lines(ss)) == parse_lines_spec(
            step_line(st, sections_lines(ss)[0]),
            sections_lines(ss).drop_first(),
        ));
    } else if ss.len() == 1 {
        assert(ss.drop_last().len() == 0);
        assert(parse_sections(st, ss.drop_last()) == st);
        assert(ss.last() == ss[0]);
    } else {
        let d = ss.drop_last();
        lemma_parse_lines_concat(st, sections_lines(d), seq![Seq::<char>::empty()] + lines_spec(
            ss.last(),
        ));
        assert(sections_lines(d) + (seq![Seq::<char>::empty()] + lines_spec(ss.last()))
            =~= sections_lines(ss));
        lemma_parse_sections(st, d);
        let st1 = parse_sections(st, d);
        lemma_blank_line(st1);
        assert((seq![Seq::<char>::empty()] + lines_spec(ss.last()))[0] == Seq::<char>::empty());
        assert((seq![Seq::<char>::empty()] + lines_spec(ss.last())).drop_first() =~= lines_spec(
            ss.last(),
        ));
    }
}

/// Parsing sections composes over concatenation of section lists.
proof fn lemma_parse_sections_concat(st: ParseState, a: Seq<Seq<char>>, b: Seq<Seq<char>>)
    ensures
        parse_sections(st, a + b) == parse_sections(parse_sections(st, a), b),
    decreases b.len(),
{
    if b.len() == 0 {
        assert(a + b =~= a);
    } else {
        lemma_parse_sections_concat(st, a, b.drop_last());
        assert((a + b).drop_last() =~= a + b.drop_last());
        assert((a + b).last() == b.last());
    }
}

/// Folding a run of `@group` lines appends the groups in order.
proof fn lemma_fold_groups(st: ParseState, gs: Seq<Seq<char>>)
    requires
        forall|i: int| 0 <= i < gs.len() ==> clean_word(#[trigger] gs[i]),
    ensures
        ({
            let st1 = parse_lines_spec(st, group_lines(gs));
            &&& st1.cfg.packages == st.cfg.packages
            &&& st1.cfg.env_vars == st.cfg.env_vars
            &&& st1.cfg.groups == st.cfg.groups + gs
            &&& st1.current == (if gs.len() > 0 {
                None
            } else {
                st.current
            })
            &&& st1.in_packages == (if gs.len() > 0 {
                false
            } else {
                st.in_packages
            })
        }),
    decreases gs.len(),
{
    if gs.len() == 0 {
        assert(st.cfg.groups + gs =~= st.cfg.groups);
    } else {
        assert(group_lines(gs)[0] == "@group "@ + gs[0]);
        lemma_group_line(st, gs[0]);
        let st1 = step_line(st, group_lines(gs)[0]);
        assert(group_lines(gs).drop_first() =~= group_lines(gs.drop_first())) by {
            assert forall|j: int|
                0 <= j < gs.drop_first().len() implies #[trigger] group_lines(gs).drop_first()[j]
                == group_lines(gs.drop_first())[j] by {
                assert(group_lines(gs)[j + 1] == "@group "@ + gs[j + 1]);
                assert(group_lines(gs.drop_first())[j] == "@group "@ + gs.drop_first()[j]);
            }
        }
        assert(forall|i: int|
            0 <= i < gs.drop_first().len() ==> clean_word(#[trigger] gs.drop_first()[i]));
        lemma_fold_groups(st1, gs.drop_first());
        assert(st.cfg.groups.push(gs[0]) + gs.drop_first() =~= st.cfg.groups + gs);
    }
}

/// Folding a run of `@env` lines binds the entries in order.
proof fn lemma_fold_env(st: ParseState, es: Seq<(Seq<char>, Seq<char>)>)
    requires
        forall|i: int| 0 <= i < es.len() ==> clean_key(#[trigger] es[i].0) && clean_value(es[i].1),
    ensures
        ({
            let st1 = parse_lines_spec(st, env_lines(es));
            &&& st1.cfg.packages == st.cfg.packages
            &&& st1.cfg.groups == st.cfg.groups
            &&& st1.cfg.env_vars == crate::chain::merge_assoc(st.cfg.env_vars, es)
            &&& st1.current == st.current
            &&& st1.in_packages == (if es.len() > 0 {
                false
            } else {
                st.in_packages
            })
        }),
    decreases es.len(),
{
    if es.len() > 0 {
        assert(env_lines(es)[0] == "@env "@ + es[0].0 + "="@ + es[0].1);
        lemma_env_line(st, es[0].0, es[0].1);
        let st1 = step_line(st, env_lines(es)[0]);
        assert(env_lines(es).drop_first() =~= env_lines(es.drop_first())) by {
            assert forall|j: int|
                0 <= j < es.drop_first().len() implies #[trigger] env_lines(es).drop_first()[j]
                == env_lines(es.drop_first())[j] by {
                assert(env_lines(es)[j + 1] == "@env "@ + es[j + 1].0 + "="@ + es[j + 1].1);
                assert(env_lines(es.drop_first())[j] == "@env "@ + es.drop_first()[j].0 + "="@
                    + es.drop_first()[j].1);
            }
        }
        assert(forall|i: int|
            0 <= i < es.drop_first().len() ==> clean_key(#[trigger] es.drop_first()[i].0)
                && clean_value(es.drop_first()[i].1));
        lemma_fold_env(st1, es.drop_first());
    }
}

/// Folding a run of `:`-directive lines leaves every claimed part alone.
proof fn lemma_fold_colon_lines(st: ParseState, ls: Seq<Seq<char>>)
    requires
        config_wf(st.cfg),
        forall|i: int|
            0 <= i < ls.len() ==> (#[trigger] ls[i]).len() > 0 && ls[i][0] == ':' && single_line(
                ls[i],
            ),
    ensures
        ({
            let st1 = parse_lines_spec(st, ls);
            &&& assoc_keys(st1.cfg.packages) == assoc_keys(st.cfg.packages)
            &&& st1.cfg.groups == st.cfg.groups
            &&& st1.cfg.env_vars == st.cfg.env_vars
            &&& st1.current == st.current
            &&& st1.in_packages == st.in_packages
            &&& config_wf(st1.cfg)
        }),
    decreases ls.len(),
{
    if ls.len() > 0 {
        lemma_colon_line(st, ls[0]);
        let st1 = step_line(st, ls[0]);
        assert(forall|i: int|
            0 <= i < ls.drop_first().len() ==> (#[trigger] ls.drop_first()[i]).len() > 0
                && ls.drop_first()[i][0] == ':' && single_line(ls.drop_first()[i]));
        lemma_fold_colon_lines(st1, ls.drop_first());
    }
}

/// Folding one package block declares the name; the rest of the claimed
/// state stays.
proof fn lemma_fold_block(st: ParseState, n: Seq<char>, p: PackageView)
    requires
        config_wf(st.cfg),
        clean_word(n),
        forall|i: int| 0 <= i < p.config.len() ==> single_line(#[trigger] p.config[i]),
        p.service is Some ==> single_line(p.service->Some_0),
        forall|i: int|
            0 <= i < p.env_vars.len() ==> single_line(#[trigger] p.env_vars[i].0) && single_line(
                p.env_vars[i].1,
            ),
    ensures
        ({
            let st1 = parse_lines_spec(st, pkg_lines(n, p));
            &&& assoc_keys(st1.cfg.packages) == assoc_keys(
                crate::config::assoc_set(st.cfg.packages, n, Package::empty_spec()),
            )
            &&& st1.cfg.groups == st.cfg.groups
            &&& st1.cfg.env_vars == st.cfg.env_vars
            &&& st1.in_packages == false
            &&& config_wf(st1.cfg)
        }),
{
    let ls = pkg_lines(n, p);
    assert(ls[0] == "@pkg "@ + n);
    lemma_pkg_header_line(st, n);
    let st1 = step_line(st, ls[0]);
    crate::config::lemma_set_package_wf(st.cfg, n, Package::empty_spec(), st.cfg.groups);
    let tail = ls.drop_first();
    let cfgl = p.config.map_values(|e: Seq<char>| ":cfg "@ + e);
    let svcl = (match p.service {
        Some(s) => seq![":service "@ + s],
        None => Seq::<Seq<char>>::empty(),
    });
    let envl = p.env_vars.map_values(|e: (Seq<char>, Seq<char>)| ":env "@ + e.0 + "="@ + e.1);
    assert(tail =~= cfgl + svcl + envl);
    lemma_parser_literals();
    assert forall|i: int|
        0 <= i < tail.len() implies (#[trigger] tail[i]).len() > 0 && tail[i][0] == ':'
        && single_line(tail[i]) by {
        if i < cfgl.len() {
            assert(tail[i] == ":cfg "@ + p.config[i]);
            lemma_concat_single(":cfg "@, p.config[i]);
        } else if i < cfgl.len() + svcl.len() {
            assert(tail[i] == ":service "@ + p.service->Some_0);
            lemma_concat_single(":service "@, p.service->Some_0);
        } else {
            let j = i - cfgl.len() - svcl.len();
            assert(tail[i] == envl[j]);
            assert(envl[j] == ":env "@ + p.env_vars[j].0 + "="@ + p.env_vars[j].1);
            lemma_concat3_single(":env "@, p.env_vars[j].0, "="@, p.env_vars[j].1);
        }
    }
    lemma_fold_colon_lines(st1, tail);
}

/// A newline-free prefix and payload concatenate into one line.
proof fn lemma_concat_single(a: Seq<char>, b: Seq<char>)
    requires
        single_line(a),
        single_line(b),
    ensures
        single_line(a + b),
{
    if (a + b).contains('\n') {
        let i = choose|i: int| 0 <= i < (a + b).len() && (a + b)[i] == '\n';
        if i < a.len() {
            assert(a[i] == '\n');
        } else {
            assert(b[i - a.len()] == '\n');
        }
    }
}

/// Four newline-free pieces concatenate into one line.
proof fn lemma_concat3_single(a: Seq<char>, b: Seq<char>, c: Seq<char>, d: Seq<char>)
    requires
        single_line(a),
        single_line(b),
        single_line(c),
        single_line(d),
    ensures
        single_line(a + b + c + d),
{
    lemma_concat_single(a, b);
    lemma_concat_single(a + b, c);
    lemma_concat_single(a + b + c, d);
}

/// The packages that a run of bare name lines declares, in order.
spec fn declare_all(
    pkgs: Seq<(Seq<char>, PackageView)>,
    ns: Seq<Seq<char>>,
) -> Seq<(Seq<char>, PackageView)>
    decreases ns.len(),
{
    if ns.len() == 0 {
        pkgs
    } else {
        declare_all(
            crate::config::assoc_set(pkgs, ns[0], Package::empty_spec()),
            ns.drop_first(),
        )
    }
}

/// Folding a run of bare name lines declares them all; the section stays
/// open and the rest of the claimed state stays.
proof fn lemma_fold_bare_names(st: ParseState, ns: Seq<Seq<char>>)
    requires
        config_wf(st.cfg),
        st.in_packages,
        forall|i: int| 0 <= i < ns.len() ==> clean_name(#[trigger] ns[i]),
    ensures
        ({
            let st1 = parse_lines_spec(st, ns);
            &&& st1.cfg.packages == declare_all(st.cfg.packages, ns)
            &&& st1.cfg.groups == st.cfg.groups
            &&& st1.cfg.env_vars == st.cfg.env_vars
            &&& st1.in_packages
            &&& config_wf(st1.cfg)
        }),
    decreases ns.len(),
{
    if ns.len() > 0 {
        lemma_bare_line(st, ns[0]);
        crate::config::lemma_set_package_wf(st.cfg, ns[0], Package::empty_spec(), st.cfg.groups);
        let st1 = step_line(st, ns[0]);
        assert(forall|i: int|
            0 <= i < ns.drop_first().len() ==> clean_name(#[trigger] ns.drop_first()[i]));
        lemma_fold_bare_names(st1, ns.drop_first());
    }
}

/// Sorting keeps the number of names.
proof fn lemma_sort_len(s: Seq<Seq<char>>)
    ensures
        sort_lex_spec(s).len() == s.len(),
    decreases s.len(),
{
    if s.len() > 0 {
        lemma_sort_len(s.drop_first());
        lemma_insert_len(s[0], sort_lex_spec(s.drop_first()));
    }
}

proof fn lemma_insert_len(x: Seq<char>, s: Seq<Seq<char>>)
    ensures
        crate::strutil::insert_lex(x, s).len() == s.len() + 1,
    decreases s.len(),
{
    if s.len() > 0 && !crate::strutil::lex_le(x, s[0]) {
        lemma_insert_len(x, s.drop_first());
    }
}

/// Inserting a fresh name keeps the list free of duplicates.
proof fn lemma_insert_nodup(x: Seq<char>, s: Seq<Seq<char>>)
    requires
        crate::chain::no_dup(s),
        !s.contains(x),
    ensures
        crate::chain::no_dup(crate::strutil::insert_lex(x, s)),
    decreases s.len(),
{
    crate::strutil::lemma_insert_lex_contains(x, s);
    let r = crate::strutil::insert_lex(x, s);
    if s.len() == 0 {
        assert(crate::chain::no_dup(r));
    } else if crate::strutil::lex_le(x, s[0]) {
        assert(r == seq![x] + s);
        assert forall|i: int, j: int| 0 <= i < j < r.len() implies r[i] != r[j] by {
            if i == 0 {
                assert(r[j] == s[j - 1]);
                if r[j] == x {
                    assert(s.contains(x));
                }
            } else {
                assert(r[i] == s[i - 1] && r[j] == s[j - 1]);
            }
        }
    } else {
        assert(crate::chain::no_dup(s.drop_first())) by {
            assert(forall|i: int|
                0 <= i < s.drop_first().len() ==> #[trigger] s.drop_first()[i] == s[i + 1]);
        }
        assert(!s.drop_first().contains(x)) by {
            if s.drop_first().contains(x) {
                let i = choose|i: int|
                    0 <= i < s.drop_first().len() && s.drop_first()[i] == x;
                assert(s[i + 1] == x);
            }
        }
        lemma_insert_nodup(x, s.drop_first());
        crate::strutil::lemma_insert_lex_contains(x, s.drop_first());
        let u = crate::strutil::insert_lex(x, s.drop_first());
        assert(r == seq![s[0]] + u);
        assert forall|i: int, j: int| 0 <= i < j < r.len() implies r[i] != r[j] by {
            if i == 0 {
                assert(r[j] == u[j - 1]);
                if r[j] == s[0] {
                    assert(u.contains(s[0]));
                    if s.drop_first().contains(s[0]) {
                        let q = choose|q: int|
                            0 <= q < s.drop_first().len() && s.drop_first()[q] == s[0];
                        assert(s[q + 1] == s[0]);
                    }
                    if s[0] == x {
                        assert(s.contains(x));
                    }
                }
            } else {
                assert(r[i] == u[i - 1] && r[j] == u[j - 1]);
            }
        }
    }
}

/// Sorting keeps a list free of duplicates.
proof fn lemma_sort_nodup(s: Seq<Seq<char>>)
    requires
        crate::chain::no_dup(s),
    ensures
        crate::chain::no_dup(sort_lex_spec(s)),
    decreases s.len(),
{
    if s.len() > 0 {
        assert(crate::chain::no_dup(s.drop_first())) by {
            assert(forall|i: int|
                0 <= i < s.drop_first().len() ==> #[trigger] s.drop_first()[i] == s[i + 1]);
        }
        lemma_sort_nodup(s.drop_first());
        lemma_sort_contains(s.drop_first());
        assert(!sort_lex_spec(s.drop_first()).contains(s[0])) by {
            if s.drop_first().contains(s[0]) {
                let q = choose|q: int| 0 <= q < s.drop_first().len() && s.drop_first()[q] == s[0];
                assert(s[q + 1] == s[0]);
            }
        }
        lemma_insert_nodup(s[0], sort_lex_spec(s.drop_first()));
    }
}

/// A directive name belongs to an entry with directives.
proof fn lemma_dn_entry(pkgs: Seq<(Seq<char>, PackageView)>, x: Seq<char>)
    requires
        directive_names(pkgs).contains(x),
    ensures
        exists|j: int|
            0 <= j < pkgs.len() && #[trigger] pkgs[j].0 == x && !crate::clean::is_loose(
                pkgs[j].1,
            ),
    decreases pkgs.len(),
{
    if pkgs.len() > 0 {
        let dn = directive_names(pkgs);
        let dprev = directive_names(pkgs.drop_last());
        if !crate::clean::is_loose(pkgs.last().1) && pkgs.last().0 == x && dn[dn.len() - 1]
            == x {
        }
        let i = choose|i: int| 0 <= i < dn.len() && dn[i] == x;
        if i < dprev.len() {
            assert(dprev[i] == x);
            lemma_dn_entry(pkgs.drop_last(), x);
            let j = choose|j: int|
                0 <= j < pkgs.drop_last().len() && #[trigger] pkgs.drop_last()[j].0 == x
                    && !crate::clean::is_loose(pkgs.drop_last()[j].1);
            assert(pkgs[j] == pkgs.drop_last()[j]);
        } else {
            assert(!crate::clean::is_loose(pkgs.last().1));
            assert(dn[i] == pkgs.last().0);
            assert(pkgs[pkgs.len() - 1].0 == x);
        }
    }
}

/// A loose name belongs to an entry without directives.
proof fn lemma_ln_entry(pkgs: Seq<(Seq<char>, PackageView)>, x: Seq<char>)
    requires
        loose_names(pkgs).contains(x),
    ensures
        exists|j: int|
            0 <= j < pkgs.len() && #[trigger] pkgs[j].0 == x && crate::clean::is_loose(pkgs[j].1),
    decreases pkgs.len(),
{
    if pkgs.len() > 0 {
        let ln = loose_names(pkgs);
        let lprev = loose_names(pkgs.drop_last());
        let i = choose|i: int| 0 <= i < ln.len() && ln[i] == x;
        if i < lprev.len() {
            assert(lprev[i] == x);
            lemma_ln_entry(pkgs.drop_last(), x);
            let j = choose|j: int|
                0 <= j < pkgs.drop_last().len() && #[trigger] pkgs.drop_last()[j].0 == x
                    && crate::clean::is_loose(pkgs.drop_last()[j].1);
            assert(pkgs[j] == pkgs.drop_last()[j]);
        } else {
            assert(crate::clean::is_loose(pkgs.last().1));
            assert(ln[i] == pkgs.last().0);
            assert(pkgs[pkgs.len() - 1].0 == x);
        }
    }
}

/// With unique package names, the directive and loose name lists have no
/// duplicates and share no name.
proof fn lemma_partition_names(pkgs: Seq<(Seq<char>, PackageView)>)
    requires
        assoc_unique(pkgs),
    ensures
        crate::chain::no_dup(directive_names(pkgs)),
        crate::chain::no_dup(loose_names(pkgs)),
        forall|x: Seq<char>|
            !(#[trigger] directive_names(pkgs).contains(x) && loose_names(pkgs).contains(x)),
    decreases pkgs.len(),
{
    if pkgs.len() > 0 {
        let d = pkgs.drop_last();
        assert(assoc_unique(d)) by {
            assert(forall|i: int| 0 <= i < d.len() ==> #[trigger] d[i] == pkgs[i]);
        }
        lemma_partition_names(d);
        let dn = directive_names(pkgs);
        let ln = loose_names(pkgs);
        let dnd = directive_names(d);
        let lnd = loose_names(d);
        assert forall|x: Seq<char>| #[trigger] dnd.contains(x) implies dn.contains(x) by {
            let i = choose|i: int| 0 <= i < dnd.len() && dnd[i] == x;
            assert(dn[i] == x);
        }
        assert forall|x: Seq<char>| #[trigger] lnd.contains(x) implies ln.contains(x) by {
            let i = choose|i: int| 0 <= i < lnd.len() && lnd[i] == x;
            assert(ln[i] == x);
        }
        let lastname = pkgs.last().0;
        assert(forall|j: int| 0 <= j < d.len() ==> #[trigger] pkgs[j].0 != lastname);
        assert(!dnd.contains(lastname)) by {
            if dnd.contains(lastname) {
                lemma_dn_entry(d, lastname);
                let j = choose|j: int|
                    0 <= j < d.len() && #[trigger] d[j].0 == lastname && !crate::clean::is_loose(
                        d[j].1,
                    );
                assert(pkgs[j].0 == lastname);
            }
        }
        assert(!lnd.contains(lastname)) by {
            if lnd.contains(lastname) {
                lemma_ln_entry(d, lastname);
                let j = choose|j: int|
                    0 <= j < d.len() && #[trigger] d[j].0 == lastname && crate::clean::is_loose(
                        d[j].1,
                    );
                assert(pkgs[j].0 == lastname);
            }
        }
        if crate::clean::is_loose(pkgs.last().1) {
            assert(dn == dnd);
            assert(ln =~= lnd.push(lastname));
            assert forall|i: int, j: int| 0 <= i < j < ln.len() implies ln[i] != ln[j] by {
                if j < lnd.len() {
                    assert(ln[i] == lnd[i] && ln[j] == lnd[j]);
                } else {
                    assert(ln[i] == lnd[i] && ln[j] == lastname);
                    if lnd[i] == lastname {
                        assert(lnd.contains(lastname));
                    }
                }
            }
            assert forall|x: Seq<char>|
                !(#[trigger] dn.contains(x) && ln.contains(x)) by {
                if dn.contains(x) && ln.contains(x) {
                    let i = choose|i: int| 0 <= i < ln.len() && ln[i] == x;
                    if i < lnd.len() {
                        assert(lnd[i] == x);
                        assert(dnd.contains(x) && lnd.contains(x));
                    } else {
                        assert(x == lastname);
                        assert(dnd.contains(lastname));
                    }
                }
            }
        } else {
            assert(ln == lnd);
            assert(dn =~= dnd.push(lastname));
            assert forall|i: int, j: int| 0 <= i < j < dn.len() implies dn[i] != dn[j] by {
                if j < dnd.len() {
                    assert(dn[i] == dnd[i] && dn[j] == dnd[j]);
                } else {
                    assert(dn[i] == dnd[i] && dn[j] == lastname);
                    if dnd[i] == lastname {
                        assert(dnd.contains(lastname));
                    }
                }
            }
            assert forall|x: Seq<char>|
                !(#[trigger] dn.contains(x) && ln.contains(x)) by {
                if dn.contains(x) && ln.contains(x) {
                    let i = choose|i: int| 0 <= i < dn.len() && dn[i] == x;
                    if i < dnd.len() {
                        assert(dnd[i] == x);
                        assert(dnd.contains(x) && lnd.contains(x));
                    } else {
                        assert(x == lastname);
                        assert(lnd.contains(lastname));
                    }
                }
            }
        }
    }
}

/// Binding fresh, distinct entries over `acc` appends them.
proof fn lemma_merge_fresh(
    acc: Seq<(Seq<char>, Seq<char>)>,
    es: Seq<(Seq<char>, Seq<char>)>,
)
    requires
        assoc_unique(es),
        forall|i: int| 0 <= i < es.len() ==> !assoc_keys(acc).contains((#[trigger] es[i]).0),
    ensures
        crate::chain::merge_assoc(acc, es) == acc + es,
    decreases es.len(),
{
    if es.len() == 0 {
        assert(acc + es =~= acc);
    } else {
        let e0 = es[0];
        assert(!assoc_keys(acc).contains(e0.0));
        assert(forall|j: int| 0 <= j < acc.len() ==> #[trigger] assoc_keys(acc)[j] == acc[j].0);
        assert forall|j: int| 0 <= j < acc.len() implies (#[trigger] acc[j]).0 != e0.0 by {
            if acc[j].0 == e0.0 {
                assert(assoc_keys(acc)[j] == e0.0);
            }
        }
        crate::config::lemma_assoc_set_append(acc, e0.0, e0.1);
        let acc2 = acc.push(e0);
        assert(assoc_unique(es.drop_first())) by {
            assert(forall|i: int|
                0 <= i < es.drop_first().len() ==> #[trigger] es.drop_first()[i] == es[i + 1]);
        }
        assert forall|i: int|
            0 <= i < es.drop_first().len() implies !assoc_keys(acc2).contains(
            (#[trigger] es.drop_first()[i]).0,
        ) by {
            assert(es.drop_first()[i] == es[i + 1]);
            if assoc_keys(acc2).contains(es[i + 1].0) {
                let q = choose|q: int|
                    0 <= q < assoc_keys(acc2).len() && assoc_keys(acc2)[q] == es[i + 1].0;
                assert(assoc_keys(acc2)[q] == acc2[q].0);
                if q < acc.len() {
                    assert(acc2[q] == acc[q]);
                    assert(assoc_keys(acc)[q] == acc[q].0);
                    assert(assoc_keys(acc).contains(es[i + 1].0));
                } else {
                    assert(acc2[q] == e0);
                }
            }
        }
        lemma_merge_fresh(acc2, es.drop_first());
        assert(acc2 + es.drop_first() =~= acc + es);
    }
}

/// The keys after declaring fresh, distinct names are the old keys with
/// the names appended, and stay unique.
proof fn lemma_declare_all_keys(pkgs: Seq<(Seq<char>, PackageView)>, ns: Seq<Seq<char>>)
    requires
        assoc_unique(pkgs),
        crate::chain::no_dup(ns),
        forall|i: int| 0 <= i < ns.len() ==> !assoc_keys(pkgs).contains(#[trigger] ns[i]),
    ensures
        assoc_keys(declare_all(pkgs, ns)) == assoc_keys(pkgs) + ns,
        assoc_unique(declare_all(pkgs, ns)),
    decreases ns.len(),
{
    if ns.len() == 0 {
        assert(assoc_keys(pkgs) + ns =~= assoc_keys(pkgs));
    } else {
        let n0 = ns[0];
        crate::config::lemma_assoc_get_keys(pkgs, n0);
        lemma_assoc_set_unique(pkgs, n0, Package::empty_spec());
        let pkgs2 = crate::config::assoc_set(pkgs, n0, Package::empty_spec());
        assert(assoc_keys(pkgs2) == assoc_keys(pkgs).push(n0));
        assert(crate::chain::no_dup(ns.drop_first())) by {
            assert(forall|i: int|
                0 <= i < ns.drop_first().len() ==> #[trigger] ns.drop_first()[i] == ns[i + 1]);
        }
        assert forall|i: int|
            0 <= i < ns.drop_first().len() implies !assoc_keys(pkgs2).contains(
            #[trigger] ns.drop_first()[i],
        ) by {
            assert(ns.drop_first()[i] == ns[i + 1]);
            if assoc_keys(pkgs2).contains(ns[i + 1]) {
                let q = choose|q: int|
                    0 <= q < assoc_keys(pkgs2).len() && assoc_keys(pkgs2)[q] == ns[i + 1];
                if q < assoc_keys(pkgs).len() {
                    assert(assoc_keys(pkgs)[q] == ns[i + 1]);
                    assert(assoc_keys(pkgs).contains(ns[i + 1]));
                } else {
                    assert(ns[i + 1] == n0);
                }
            }
        }
        lemma_declare_all_keys(pkgs2, ns.drop_first());
        assert(assoc_keys(pkgs).push(n0) + ns.drop_first() =~= assoc_keys(pkgs) + ns);
    }
}

/// Every field a package block writes fits on its line.
pub open spec fn pkg_payload_single(p: PackageView) -> bool {
    &&& forall|i: int| 0 <= i < p.config.len() ==> single_line(#[trigger] p.config[i])
    &&& (p.service is Some ==> single_line(p.service->Some_0))
    &&& forall|i: int|
        0 <= i < p.env_vars.len() ==> single_line(#[trigger] p.env_vars[i].0) && single_line(
            p.env_vars[i].1,
        )
}

/// The lines of a package block are single lines, and there is at least
/// the header.
proof fn lemma_pkg_lines_single(n: Seq<char>, p: PackageView)
    requires
        clean_word(n),
        pkg_payload_single(p),
    ensures
        pkg_lines(n, p).len() >= 1,
        forall|i: int| 0 <= i < pkg_lines(n, p).len() ==> single_line(#[trigger] pkg_lines(n, p)[i]),
{
    lemma_parser_literals();
    let ls = pkg_lines(n, p);
    let cfgl = p.config.map_values(|e: Seq<char>| ":cfg "@ + e);
    let svcl = (match p.service {
        Some(s) => seq![":service "@ + s],
        None => Seq::<Seq<char>>::empty(),
    });
    let envl = p.env_vars.map_values(|e: (Seq<char>, Seq<char>)| ":env "@ + e.0 + "="@ + e.1);
    assert(single_line("@pkg "@));
    assert(single_line(":cfg "@));
    assert(single_line(":service "@));
    assert(single_line(":env "@));
    assert(single_line("="@));
    assert forall|i: int| 0 <= i < ls.len() implies single_line(#[trigger] ls[i]) by {
        if i == 0 {
            lemma_concat_single("@pkg "@, n);
        } else if i - 1 < cfgl.len() {
            assert(ls[i] == cfgl[i - 1]);
            assert(cfgl[i - 1] == ":cfg "@ + p.config[i - 1]);
            lemma_concat_single(":cfg "@, p.config[i - 1]);
        } else if i - 1 < cfgl.len() + svcl.len() {
            assert(ls[i] == ":service "@ + p.service->Some_0);
            lemma_concat_single(":service "@, p.service->Some_0);
        } else {
            let j = i - 1 - cfgl.len() - svcl.len();
            assert(ls[i] == envl[j]);
            assert(envl[j] == ":env "@ + p.env_vars[j].0 + "="@ + p.env_vars[j].1);
            lemma_concat3_single(":env "@, p.env_vars[j].0, "="@, p.env_vars[j].1);
        }
    }
}

/// The keys after a run of package blocks, name by name: a fresh name is
/// appended, a re-declared name stays in place.
spec fn keys_after(ks: Seq<Seq<char>>, ns: Seq<Seq<char>>) -> Seq<Seq<char>>
    decreases ns.len(),
{
    if ns.len() == 0 {
        ks
    } else {
        let prev = keys_after(ks, ns.drop_last());
        if prev.contains(ns.last()) {
            prev
        } else {
            prev.push(ns.last())
        }
    }
}

/// Fresh, distinct names are appended in order.
proof fn lemma_keys_after_fresh(ks: Seq<Seq<char>>, ns: Seq<Seq<char>>)
    requires
        crate::chain::no_dup(ns),
        forall|i: int| 0 <= i < ns.len() ==> !ks.contains(#[trigger] ns[i]),
    ensures
        keys_after(ks, ns) == ks + ns,
    decreases ns.len(),
{
    if ns.len() == 0 {
        assert(ks + ns =~= ks);
    } else {
        let d = ns.drop_last();
        assert(crate::chain::no_dup(d)) by {
            assert(forall|i: int| 0 <= i < d.len() ==> #[trigger] d[i] == ns[i]);
        }
        assert forall|i: int| 0 <= i < d.len() implies !ks.contains(#[trigger] d[i]) by {
            assert(d[i] == ns[i]);
        }
        lemma_keys_after_fresh(ks, d);
        let prev = ks + d;
        assert(!prev.contains(ns.last())) by {
            if prev.contains(ns.last()) {
                let q = choose|q: int| 0 <= q < prev.len() && prev[q] == ns.last();
                if q < ks.len() {
                    assert(ks[q] == ns.last());
                    assert(ks.contains(ns[ns.len() - 1]));
                } else {
                    assert(d[q - ks.len()] == ns.last());
                    assert(ns[q - ks.len()] == ns[ns.len() - 1]);
                }
            }
        }
        assert((ks + d).push(ns.last()) =~= ks + ns);
    }
}

/// Folding a run of package blocks declares the names in order; groups
/// and global environment stay.
proof fn lemma_fold_blocks(
    st: ParseState,
    src: Seq<(Seq<char>, PackageView)>,
    names: Seq<Seq<char>>,
)
    requires
        config_wf(st.cfg),
        forall|i: int| 0 <= i < names.len() ==> clean_word(#[trigger] names[i]),
        forall|i: int| 0 <= i < names.len() ==> assoc_get(src, #[trigger] names[i]) is Some,
        forall|i: int|
            0 <= i < names.len() ==> pkg_payload_single(
                assoc_get(src, #[trigger] names[i])->Some_0,
            ),
    ensures
        ({
            let st1 = parse_sections(st, names.map_values(|n: Seq<char>| pkg_block(src, n)));
            &&& assoc_keys(st1.cfg.packages) == keys_after(assoc_keys(st.cfg.packages), names)
            &&& st1.cfg.groups == st.cfg.groups
            &&& st1.cfg.env_vars == st.cfg.env_vars
            &&& st1.in_packages == (if names.len() > 0 {
                false
            } else {
                st.in_packages
            })
            &&& config_wf(st1.cfg)
        }),
    decreases names.len(),
{
    let ss = names.map_values(|n: Seq<char>| pkg_block(src, n));
    if names.len() > 0 {
        let d = names.drop_last();
        assert(forall|i: int| 0 <= i < d.len() ==> #[trigger] d[i] == names[i]);
        lemma_fold_blocks(st, src, d);
        let st_mid = parse_sections(st, d.map_values(|n: Seq<char>| pkg_block(src, n)));
        assert(ss.drop_last() =~= d.map_values(|n: Seq<char>| pkg_block(src, n))) by {
            assert(forall|i: int| 0 <= i < d.len() ==> #[trigger] ss[i] == pkg_block(src, names[i]));
        }
        let n = names.last();
        let p = assoc_get(src, n)->Some_0;
        assert(clean_word(n) && assoc_get(src, n) is Some && pkg_payload_single(p)) by {
            assert(names[names.len() - 1] == n);
        }
        assert(ss.last() == pkg_block(src, n));
        lemma_pkg_lines_single(n, p);
        lemma_lines_join_nl(pkg_lines(n, p));
        assert(lines_spec(pkg_block(src, n)) == pkg_lines(n, p));
        lemma_fold_block(st_mid, n, p);
        let st1 = parse_lines_spec(st_mid, pkg_lines(n, p));
        crate::config::lemma_assoc_get_keys(st_mid.cfg.packages, n);
        lemma_assoc_set_unique(st_mid.cfg.packages, n, Package::empty_spec());
        assert(parse_sections(st, ss) == st1);
    } else {
        assert(ss.len() == 0);
    }
}

/// The round-trip law. Parsing the canonical text of a clean, well-formed
/// configuration yields exactly its package names — the names with
/// directives sorted, then the bare names sorted — its group names
/// sorted, and its global environment entries unchanged. Directive
/// payloads are outside the claim: the canonical writer does not promise
/// a lossless serialization of every directive variant.
#[verifier::rlimit(100)]
pub proof fn lemma_parse_optimize_round_trip(c: ConfigView)
    requires
        config_wf(c),
        forall|i: int| 0 <= i < c.groups.len() ==> clean_word(#[trigger] c.groups[i]),
        forall|i: int| 0 <= i < c.packages.len() ==> clean_name((#[trigger] c.packages[i]).0),
        forall|i: int|
            0 <= i < c.packages.len() ==> pkg_payload_single((#[trigger] c.packages[i]).1),
        forall|i: int|
            0 <= i < c.env_vars.len() ==> clean_key((#[trigger] c.env_vars[i]).0) && clean_value(
                c.env_vars[i].1,
            ),
    ensures
        ({
            let parsed = spec_parse(spec_optimize(c));
            &&& assoc_keys(parsed.packages) == sort_lex_spec(directive_names(c.packages))
                + sort_lex_spec(loose_names(c.packages))
            &&& parsed.groups == sort_lex_spec(c.groups)
            &&& parsed.env_vars == c.env_vars
        }),
{
    lemma_parser_literals();
    let gs = sort_lex_spec(c.groups);
    let dirs = sort_lex_spec(directive_names(c.packages));
    let loose = sort_lex_spec(loose_names(c.packages));
    let gpart: Seq<Seq<char>> = if gs.len() > 0 {
        seq![join_spec(group_lines(gs), seq!['\n'])]
    } else {
        Seq::<Seq<char>>::empty()
    };
    let epart: Seq<Seq<char>> = if c.env_vars.len() > 0 {
        seq![join_spec(env_lines(c.env_vars), seq!['\n'])]
    } else {
        Seq::<Seq<char>>::empty()
    };
    let bpart = dirs.map_values(|n: Seq<char>| pkg_block(c.packages, n));
    let lpart: Seq<Seq<char>> = if loose.len() > 0 {
        seq![join_spec(seq!["@pkgs"@] + loose, seq!['\n'])]
    } else {
        Seq::<Seq<char>>::empty()
    };
    let sections = gpart + epart + bpart + lpart;
    assert(spec_optimize(c) == join_spec(sections, seq!['\n', '\n']));
    lemma_sections_lines(sections);
    lemma_parse_sections(initial_state(), sections);
    assert(spec_parse(spec_optimize(c)) == parse_sections(initial_state(), sections).cfg);
    lemma_parse_sections_concat(initial_state(), gpart, epart + bpart + lpart);
    let st_g = parse_sections(initial_state(), gpart);
    lemma_parse_sections_concat(st_g, epart, bpart + lpart);
    let st_e = parse_sections(st_g, epart);
    lemma_parse_sections_concat(st_e, bpart, lpart);
    let st_b = parse_sections(st_e, bpart);
    let st_l = parse_sections(st_b, lpart);
    assert(gpart + (epart + (bpart + lpart)) =~= sections);
    assert(parse_sections(initial_state(), sections) == st_l) by {
        assert(gpart + epart + bpart + lpart =~= gpart + (epart + (bpart + lpart)));
        assert((epart + (bpart + lpart)) =~= epart + (bpart + lpart));
        assert(bpart + lpart =~= bpart + lpart);
        lemma_parse_sections_concat(initial_state(), gpart, epart + (bpart + lpart));
        lemma_parse_sections_concat(st_g, epart, bpart + lpart);
        lemma_parse_sections_concat(st_e, bpart, lpart);
        assert(parse_sections(initial_state(), gpart + (epart + (bpart + lpart)))
            == parse_sections(st_g, epart + (bpart + lpart)));
    }
    // Cleanliness of the sorted lists.
    lemma_sort_contains(c.groups);
    lemma_sort_contains(directive_names(c.packages));
    lemma_sort_contains(loose_names(c.packages));
    assert forall|i: int| 0 <= i < gs.len() implies clean_word(#[trigger] gs[i]) by {
        assert(gs.contains(gs[i]));
        let j = choose|j: int| 0 <= j < c.groups.len() && c.groups[j] == gs[i];
    }
    assert forall|i: int| 0 <= i < dirs.len() implies clean_name(#[trigger] dirs[i])
        && assoc_get(c.packages, dirs[i]) is Some && pkg_payload_single(
        assoc_get(c.packages, dirs[i])->Some_0,
    ) by {
        assert(dirs.contains(dirs[i]));
        assert(directive_names(c.packages).contains(dirs[i]));
        lemma_dn_entry(c.packages, dirs[i]);
        let j = choose|j: int|
            0 <= j < c.packages.len() && #[trigger] c.packages[j].0 == dirs[i]
                && !crate::clean::is_loose(c.packages[j].1);
        assert(clean_name(c.packages[j].0));
        crate::clean::lemma_declared_found(c.packages, dirs[i]);
        crate::config::lemma_assoc_get_entry(c.packages, dirs[i]);
        let q = choose|q: int|
            0 <= q < c.packages.len() && #[trigger] c.packages[q] == (
                dirs[i],
                assoc_get(c.packages, dirs[i])->Some_0,
            );
        assert(pkg_payload_single(c.packages[q].1));
    }
    assert forall|i: int| 0 <= i < loose.len() implies clean_name(#[trigger] loose[i]) by {
        assert(loose.contains(loose[i]));
        assert(loose_names(c.packages).contains(loose[i]));
        lemma_ln_entry(c.packages, loose[i]);
        let j = choose|j: int|
            0 <= j < c.packages.len() && #[trigger] c.packages[j].0 == loose[i]
                && crate::clean::is_loose(c.packages[j].1);
        assert(clean_name(c.packages[j].0));
    }
    // The group section.
    lemma_sort_len(c.groups);
    if gs.len() > 0 {
        assert(gpart.drop_last() =~= Seq::<Seq<char>>::empty());
        assert(gpart.last() == join_spec(group_lines(gs), seq!['\n']));
        assert(group_lines(gs).len() == gs.len());
        assert forall|i: int|
            0 <= i < group_lines(gs).len() implies single_line(
            #[trigger] group_lines(gs)[i],
        ) by {
            assert(group_lines(gs)[i] == "@group "@ + gs[i]);
            lemma_concat_single("@group "@, gs[i]);
        }
        lemma_lines_join_nl(group_lines(gs));
        lemma_fold_groups(initial_state(), gs);
        assert(parse_sections(initial_state(), gpart.drop_last()) == initial_state());
        assert(st_g == parse_lines_spec(initial_state(), lines_spec(gpart.last())));
        assert(lines_spec(gpart.last()) == group_lines(gs));
        assert(st_g == parse_lines_spec(initial_state(), group_lines(gs)));
    }
    assert(st_g.cfg.packages == Seq::<(Seq<char>, PackageView)>::empty());
    assert(st_g.cfg.env_vars == Seq::<(Seq<char>, Seq<char>)>::empty());
    assert(st_g.cfg.groups == gs) by {
        if gs.len() > 0 {
            assert(Seq::<Seq<char>>::empty() + gs =~= gs);
        } else {
            assert(gs =~= Seq::<Seq<char>>::empty());
        }
    }
    assert(!st_g.in_packages);
    assert(config_wf(st_g.cfg));
    // The environment section.
    let es = c.env_vars;
    if es.len() > 0 {
        assert(epart.drop_last() =~= Seq::<Seq<char>>::empty());
        assert(epart.last() == join_spec(env_lines(es), seq!['\n']));
        assert(env_lines(es).len() == es.len());
        assert forall|i: int|
            0 <= i < env_lines(es).len() implies single_line(#[trigger] env_lines(es)[i]) by {
            assert(env_lines(es)[i] == "@env "@ + es[i].0 + "="@ + es[i].1);
            lemma_concat3_single("@env "@, es[i].0, "="@, es[i].1);
        }
        lemma_lines_join_nl(env_lines(es));
        lemma_fold_env(st_g, es);
        assert(parse_sections(st_g, epart.drop_last()) == st_g);
        assert(st_e == parse_lines_spec(st_g, lines_spec(epart.last())));
        assert(lines_spec(epart.last()) == env_lines(es));
        assert(st_e == parse_lines_spec(st_g, env_lines(es)));
        lemma_merge_fresh(st_g.cfg.env_vars, es);
        assert(Seq::<(Seq<char>, Seq<char>)>::empty() + es =~= es);
    }
    assert(st_e.cfg.packages == Seq::<(Seq<char>, PackageView)>::empty());
    assert(st_e.cfg.env_vars == es);
    assert(st_e.cfg.groups == gs);
    assert(!st_e.in_packages);
    assert(config_wf(st_e.cfg));
    // The package blocks.
    lemma_fold_blocks(st_e, c.packages, dirs);
    lemma_partition_names(c.packages);
    lemma_sort_nodup(directive_names(c.packages));
    lemma_sort_nodup(loose_names(c.packages));
    assert(assoc_keys(st_e.cfg.packages) =~= Seq::<Seq<char>>::empty());
    assert forall|i: int|
        0 <= i < dirs.len() implies !assoc_keys(st_e.cfg.packages).contains(
        #[trigger] dirs[i],
    ) by {}
    lemma_keys_after_fresh(assoc_keys(st_e.cfg.packages), dirs);
    assert(assoc_keys(st_b.cfg.packages) == Seq::<Seq<char>>::empty() + dirs);
    assert(Seq::<Seq<char>>::empty() + dirs =~= dirs);
    assert(st_b.cfg.groups == gs);
    assert(st_b.cfg.env_vars == es);
    assert(config_wf(st_b.cfg));
    assert(!st_b.in_packages);
    // The bare-name section.
    if loose.len() > 0 {
        assert(lpart.drop_last() =~= Seq::<Seq<char>>::empty());
        assert(lpart.last() == join_spec(seq!["@pkgs"@] + loose, seq!['\n']));
        let lls = seq!["@pkgs"@] + loose;
        assert forall|i: int| 0 <= i < lls.len() implies single_line(#[trigger] lls[i]) by {
            if i == 0 {
                assert(lls[0] == "@pkgs"@);
                assert(single_line("@pkgs"@));
            } else {
                assert(lls[i] == loose[i - 1]);
            }
        }
        lemma_lines_join_nl(lls);
        assert(parse_sections(st_b, lpart.drop_last()) == st_b);
        assert(st_l == parse_lines_spec(st_b, lines_spec(lpart.last())));
        assert(lines_spec(lpart.last()) == lls);
        assert(st_l == parse_lines_spec(st_b, lls));
        assert(lls[0] == "@pkgs"@);
        assert(lls.drop_first() =~= loose);
        lemma_pkgs_line(st_b);
        let st_p = step_line(st_b, "@pkgs"@);
        assert(parse_lines_spec(st_b, lls) == parse_lines_spec(st_p, loose));
        lemma_fold_bare_names(st_p, loose);
        assert(st_l.cfg.packages == declare_all(st_b.cfg.packages, loose));
        assert forall|i: int|
            0 <= i < loose.len() implies !assoc_keys(st_b.cfg.packages).contains(
            #[trigger] loose[i],
        ) by {
            assert(loose.contains(loose[i]));
            assert(loose_names(c.packages).contains(loose[i]));
            if dirs.contains(loose[i]) {
                assert(directive_names(c.packages).contains(loose[i]));
            }
        }
        lemma_declare_all_keys(st_b.cfg.packages, loose);
    } else {
        assert(dirs + loose =~= dirs);
    }
    assert(assoc_keys(st_l.cfg.packages) == dirs + loose);
    assert(st_l.cfg.groups == gs);
    assert(st_l.cfg.env_vars == es);
}

} // verus!
