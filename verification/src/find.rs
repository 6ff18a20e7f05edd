//! Locating declarations in configuration documents: where a package is
//! declared, and where a directive or a piece of configuration syntax
//! occurs.

use vstd::prelude::*;

use crate::strutil;
use crate::strutil::{join_spec, lines_spec, starts_with_spec, trim_spec};

verus! {

/// What kind of line a match was found on.
#[derive(Debug, Clone, Copy, PartialEq, Eq, Structural)]
pub enum LocationContext {
    PackageDeclaration,
    PackagesSection,
    DirectMatch,
    AlternativeSyntax,
    EnvDeclaration,
    ConfigDirective,
    ServiceDirective,
    GroupDeclaration,
}

/// One place a query matched: the file, the one-based line, the line's
/// text and the kind of match.
#[derive(Debug, Clone)]
pub struct Location {
    pub file_path: String,
    pub line_number: usize,
    pub line_content: String,
    pub context: LocationContext,
}

/// The mathematical content of a [`Location`].
pub ghost struct LocationView {
    pub file_path: Seq<char>,
    pub line_number: int,
    pub line_content: Seq<char>,
    pub context: LocationContext,
}

impl View for Location {
    type V = LocationView;

    open spec fn view(&self) -> LocationView {
        LocationView {
            file_path: self.file_path@,
            line_number: self.line_number as int,
            line_content: self.line_content@,
            context: self.context,
        }
    }
}

/// Whether the first `k` lines leave a bare-name section open: the last
/// `@packages` / `@pkgs` line wins until another `@`-line closes it.
pub open spec fn in_pkgs_at(lines: Seq<Seq<char>>, k: int) -> bool
    decreases k,
{
    if k <= 0 || lines.len() == 0 {
        false
    } else if k > lines.len() {
        in_pkgs_at(lines, lines.len() as int)
    } else {
        let t = trim_spec(lines[k - 1]);
        if t == "@packages"@ || t == "@pkgs"@ {
            true
        } else if t.len() > 0 && t[0] == '@' {
            false
        } else {
            in_pkgs_at(lines, k - 1)
        }
    }
}

/// Whether the line numbered `line_num` (zero-based) of `content` sits in
/// a bare-name section, as [`in_pkgs_at`] describes.
pub fn is_in_packages_section(content: &str, line_num: usize) -> (r: bool)
    ensures
        r == in_pkgs_at(lines_spec(content@), line_num as int),
{
    let lines = strutil::split_lines(content);
    let n: usize = lines.len();
    let limit: usize = if line_num < n {
        line_num
    } else {
        n
    };
    proof {
        if line_num > n {
            assert(in_pkgs_at(lines.deep_view(), line_num as int) == in_pkgs_at(
                lines.deep_view(),
                n as int,
            ));
        }
    }
    let mut k: usize = limit;
    loop
        invariant
            0 <= k <= limit <= n,
            n == lines.len(),
            lines.deep_view() == lines_spec(content@),
            in_pkgs_at(lines.deep_view(), line_num as int) == in_pkgs_at(
                lines.deep_view(),
                k as int,
            ),
        decreases k,
    {
        if k == 0 {
            return false;
        }
        let t = strutil::trim(lines[k - 1].as_str());
        if strutil::str_eq(t, "@packages") || strutil::str_eq(t, "@pkgs") {
            return true;
        }
        let tn: usize = t.unicode_len();
        if tn > 0 && t.get_char(0) == '@' {
            return false;
        }
        k = k - 1;
    }
}

/// The match of the package-name query on one line: a `@package` / `@pkg`
/// declaration of that name, or the bare name inside a section.
pub open spec fn pkg_line_match(
    name: Seq<char>,
    lines: Seq<Seq<char>>,
    k: int,
) -> Option<LocationContext> {
    let t = trim_spec(lines[k]);
    if t == "@package "@ + name || t == "@pkg "@ + name {
        Some(LocationContext::PackageDeclaration)
    } else if t == name && in_pkgs_at(lines, k) {
        Some(LocationContext::PackagesSection)
    } else {
        None
    }
}

/// The locations of the package-name query in the first `k` lines.
pub open spec fn pkg_locations_spec(
    name: Seq<char>,
    lines: Seq<Seq<char>>,
    path: Seq<char>,
    k: int,
) -> Seq<LocationView>
    decreases k,
{
    if k <= 0 {
        Seq::empty()
    } else {
        pkg_locations_spec(name, lines, path, k - 1) + (match pkg_line_match(
            name,
            lines,
            k - 1,
        ) {
            Some(ctx) => seq![
                LocationView {
                    file_path: path,
                    line_number: k,
                    line_content: lines[k - 1],
                    context: ctx,
                },
            ],
            None => Seq::<LocationView>::empty(),
        })
    }
}

/// Finds where the package `package_name` is declared in `content`, as
/// [`pkg_locations_spec`] describes.
pub fn find_package_in_file(package_name: &str, content: &str, file_path: &str) -> (r: Vec<
    Location,
>)
    ensures
        r@.map_values(|l: Location| l@) == pkg_locations_spec(
            package_name@,
            lines_spec(content@),
            file_path@,
            lines_spec(content@).len() as int,
        ),
{
    let lines = strutil::split_lines(content);
    let n: usize = lines.len();
    let q1 = strutil::concat("@package ", package_name);
    let q2 = strutil::concat("@pkg ", package_name);
    let mut out: Vec<Location> = Vec::new();
    let mut i: usize = 0;
    proof {
        assert(pkg_locations_spec(package_name@, lines.deep_view(), file_path@, 0)
            =~= out@.map_values(|l: Location| l@));
    }
    while i < n
        invariant
            0 <= i <= n,
            n == lines.len(),
            lines.deep_view() == lines_spec(content@),
            q1@ == "@package "@ + package_name@,
            q2@ == "@pkg "@ + package_name@,
            out@.map_values(|l: Location| l@) == pkg_locations_spec(
                package_name@,
                lines.deep_view(),
                file_path@,
                i as int,
            ),
        decreases n - i,
    {
        let t = strutil::trim(lines[i].as_str());
        let matched: Option<LocationContext> = if strutil::str_eq(t, q1.as_str())
            || strutil::str_eq(t, q2.as_str()) {
            Some(LocationContext::PackageDeclaration)
        } else if strutil::str_eq(t, package_name) && is_in_packages_section(content, i) {
            Some(LocationContext::PackagesSection)
        } else {
            None
        };
        proof {
            assert(lines.deep_view()[i as int] == lines@[i as int]@);
        }
        match matched {
            Some(ctx) => {
                let ghost before = out@.map_values(|l: Location| l@);
                out.push(Location {
                    file_path: file_path.to_owned(),
                    line_number: i + 1,
                    line_content: lines[i].clone(),
                    context: ctx,
                });
                proof {
                    assert(out@.map_values(|l: Location| l@) =~= before.push(
                        LocationView {
                            file_path: file_path@,
                            line_number: i + 1,
                            line_content: lines.deep_view()[i as int],
                            context: ctx,
                        },
                    ));
                }
            },
            None => {},
        }
        i = i + 1;
    }
    out
}

/// The match of a syntax query on one line. One term matches directives of
/// its kind; two terms match a directive and its value, also across the
/// `@package` / `@pkg` spellings; the terms joined with spaces always
/// match a line that equals them.
pub open spec fn syntax_line_match(
    q: Seq<Seq<char>>,
    lines: Seq<Seq<char>>,
    k: int,
) -> Option<LocationContext> {
    let t = trim_spec(lines[k]);
    if t == join_spec(q, " "@) {
        Some(LocationContext::DirectMatch)
    } else if q.len() == 1 {
        let p = q[0];
        if p == "@env"@ {
            if starts_with_spec(t, "@env "@) {
                Some(LocationContext::EnvDeclaration)
            } else {
                None
            }
        } else if p == ":config"@ {
            if starts_with_spec(t, ":config "@) {
                Some(LocationContext::ConfigDirective)
            } else {
                None
            }
        } else if p == ":service"@ {
            if starts_with_spec(t, ":service "@) {
                Some(LocationContext::ServiceDirective)
            } else {
                None
            }
        } else if p == "@group"@ {
            if starts_with_spec(t, "@group "@) {
                Some(LocationContext::GroupDeclaration)
            } else {
                None
            }
        } else if starts_with_spec(p, "@package "@) {
            let nm = p.subrange("@package "@.len() as int, p.len() as int);
            if t == "@package "@ + nm || t == "@pkg "@ + nm {
                Some(LocationContext::PackageDeclaration)
            } else {
                None
            }
        } else if starts_with_spec(p, "@pkg "@) {
            let nm = p.subrange("@pkg "@.len() as int, p.len() as int);
            if t == "@package "@ + nm || t == "@pkg "@ + nm {
                Some(LocationContext::PackageDeclaration)
            } else {
                None
            }
        } else {
            None
        }
    } else if q.len() == 2 {
        if q[0] == "@package"@ {
            if t == "@pkg "@ + q[1] {
                Some(LocationContext::AlternativeSyntax)
            } else {
                None
            }
        } else if q[0] == "@pkg"@ {
            if t == "@package "@ + q[1] {
                Some(LocationContext::AlternativeSyntax)
            } else {
                None
            }
        } else if q[0] == "@packages"@ || q[0] == "@pkgs"@ {
            if t == q[1] && in_pkgs_at(lines, k) {
                Some(LocationContext::PackagesSection)
            } else {
                None
            }
        } else {
            None
        }
    } else {
        None
    }
}

/// The locations of a syntax query in the first `k` lines.
pub open spec fn syntax_locations_spec(
    q: Seq<Seq<char>>,
    lines: Seq<Seq<char>>,
    path: Seq<char>,
    k: int,
) -> Seq<LocationView>
    decreases k,
{
    if k <= 0 {
        Seq::empty()
    } else {
        syntax_locations_spec(q, lines, path, k - 1) + (match syntax_line_match(
            q,
            lines,
            k - 1,
        ) {
            Some(ctx) => seq![
                LocationView {
                    file_path: path,
                    line_number: k,
                    line_content: lines[k - 1],
                    context: ctx,
                },
            ],
            None => Seq::<LocationView>::empty(),
        })
    }
}

/// Finds where the syntax query `query` occurs in `content`, as
/// [`syntax_locations_spec`] describes.
pub fn find_config_syntax_in_file(query: &Vec<String>, content: &str, file_path: &str) -> (r: Vec<
    Location,
>)
    ensures
        r@.map_values(|l: Location| l@) == syntax_locations_spec(
            query.deep_view(),
            lines_spec(content@),
            file_path@,
            lines_spec(content@).len() as int,
        ),
{
    let ghost qv = query.deep_view();
    let lines = strutil::split_lines(content);
    let n: usize = lines.len();
    let search_term = strutil::join_strings(query, " ");
    let mut out: Vec<Location> = Vec::new();
    let mut i: usize = 0;
    proof {
        assert(syntax_locations_spec(qv, lines.deep_view(), file_path@, 0) =~= out@.map_values(
            |l: Location| l@,
        ));
    }
    while i < n
        invariant
            0 <= i <= n,
            n == lines.len(),
            qv == query.deep_view(),
            lines.deep_view() == lines_spec(content@),
            search_term@ == join_spec(qv, " "@),
            out@.map_values(|l: Location| l@) == syntax_locations_spec(
                qv,
                lines.deep_view(),
                file_path@,
                i as int,
            ),
        decreases n - i,
    {
        let t = strutil::trim(lines[i].as_str());
        proof {
            if query@.len() >= 1 {
                assert(qv[0] == query@[0]@);
            }
            if query@.len() >= 2 {
                assert(qv[1] == query@[1]@);
            }
        }
        let matched: Option<LocationContext> = if strutil::str_eq(t, search_term.as_str()) {
            Some(LocationContext::DirectMatch)
        } else if query.len() == 1 {
            let p = query[0].as_str();
            if strutil::str_eq(p, "@env") {
                if strutil::starts_with(t, "@env ") {
                    Some(LocationContext::EnvDeclaration)
                } else {
                    None
                }
            } else if strutil::str_eq(p, ":config") {
                if strutil::starts_with(t, ":config ") {
                    Some(LocationContext::ConfigDirective)
                } else {
                    None
                }
            } else if strutil::str_eq(p, ":service") {
                if strutil::starts_with(t, ":service ") {
                    Some(LocationContext::ServiceDirective)
                } else {
                    None
                }
            } else if strutil::str_eq(p, "@group") {
                if strutil::starts_with(t, "@group ") {
                    Some(LocationContext::GroupDeclaration)
                } else {
                    None
                }
            } else if let Some(nm) = strutil::strip_prefix(p, "@package ") {
                let d1 = strutil::concat("@package ", nm);
                let d2 = strutil::concat("@pkg ", nm);
                if strutil::str_eq(t, d1.as_str()) || strutil::str_eq(t, d2.as_str()) {
                    Some(LocationContext::PackageDeclaration)
                } else {
                    None
                }
            } else if let Some(nm) = strutil::strip_prefix(p, "@pkg ") {
                let d1 = strutil::concat("@package ", nm);
                let d2 = strutil::concat("@pkg ", nm);
                if strutil::str_eq(t, d1.as_str()) || strutil::str_eq(t, d2.as_str()) {
                    Some(LocationContext::PackageDeclaration)
                } else {
                    None
                }
            } else {
                None
            }
        } else if query.len() == 2 {
            let d = query[0].as_str();
            let v = query[1].as_str();
            if strutil::str_eq(d, "@package") {
                let alt = strutil::concat("@pkg ", v);
                if strutil::str_eq(t, alt.as_str()) {
                    Some(LocationContext::AlternativeSyntax)
                } else {
                    None
                }
            } else if strutil::str_eq(d, "@pkg") {
                let alt = strutil::concat("@package ", v);
                if strutil::str_eq(t, alt.as_str()) {
                    Some(LocationContext::AlternativeSyntax)
                } else {
                    None
                }
            } else if strutil::str_eq(d, "@packages") || strutil::str_eq(d, "@pkgs") {
                if strutil::str_eq(t, v) && is_in_packages_section(content, i) {
                    Some(LocationContext::PackagesSection)
                } else {
                    None
                }
            } else {
                None
            }
        } else {
            None
        };
        proof {
            assert(lines.deep_view()[i as int] == lines@[i as int]@);
        }
        match matched {
            Some(ctx) => {
                let ghost before = out@.map_values(|l: Location| l@);
                out.push(Location {
                    file_path: file_path.to_owned(),
                    line_number: i + 1,
                    line_content: lines[i].clone(),
                    context: ctx,
                });
                proof {
                    assert(out@.map_values(|l: Location| l@) =~= before.push(
                        LocationView {
                            file_path: file_path@,
                            line_number: i + 1,
                            line_content: lines.deep_view()[i as int],
                            context: ctx,
                        },
                    ));
                }
            },
            None => {},
        }
        i = i + 1;
    }
    out
}

} // verus!
