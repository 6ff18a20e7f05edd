//! The line-oriented configuration language.
//!
//! One directive per line. `@package <name>` / `@pkg <name>` opens a package
//! block whose `:`-directives follow; `@packages` / `@pkgs` opens a section
//! of bare package names; `:config` / `:cfg` attaches a dotfile mapping;
//! `:service` a service name; `:env` a package-scoped variable; `@env` a
//! global variable; `@group` a group reference. `#` starts a comment, blank
//! lines and unknown lines are ignored.
//!
//! [`step_line`] is the grammar: it says what one line does to the parse
//! state, and [`Config::parse`] returns exactly the fold of it over the
//! lines of the input.

use vstd::prelude::*;

use crate::config::{
    assoc_get, assoc_set, assoc_unique, config_wf, lemma_assoc_set_unique, lemma_pkg_env_unique,
    lemma_set_package_wf, Config, ConfigView, Package, PackageView,
};
use crate::strutil;
use crate::strutil::{find_from, lines_spec, split_once_spec, starts_with_spec, trim_spec};

verus! {

/// The parser's state between two lines: the configuration built so far,
/// the package block that is open, and whether a bare-name section is open.
pub ghost struct ParseState {
    pub cfg: ConfigView,
    pub current: Option<Seq<char>>,
    pub in_packages: bool,
}

/// The view of an optional string.
pub open spec fn opt_view(o: Option<String>) -> Option<Seq<char>> {
    match o {
        Some(s) => Some(s@),
        None => None,
    }
}

/// The state before the first line.
pub open spec fn initial_state() -> ParseState {
    ParseState { cfg: Config::empty_spec(), current: None, in_packages: false }
}

/// `@package <name>` / `@pkg <name>`: opens a block and declares an empty
/// package, replacing an earlier one of the same name.
pub open spec fn step_package_decl(st: ParseState, rest: Seq<char>) -> ParseState {
    let name = trim_spec(rest);
    ParseState {
        cfg: ConfigView {
            packages: assoc_set(st.cfg.packages, name, Package::empty_spec()),
            ..st.cfg
        },
        current: Some(name),
        in_packages: false,
    }
}

/// `:config <value>` / `:cfg <value>`: appends a dotfile mapping to the open
/// package; `<src> -> <dst>` has both sides trimmed around the arrow.
pub open spec fn step_config_directive(st: ParseState, rest: Seq<char>) -> ParseState {
    let value = match split_once_spec(rest, " -> "@) {
        Some(p) => trim_spec(p.0) + " -> "@ + trim_spec(p.1),
        None => trim_spec(rest),
    };
    match st.current {
        Some(name) => match assoc_get(st.cfg.packages, name) {
            Some(pkg) => ParseState {
                cfg: ConfigView {
                    packages: assoc_set(
                        st.cfg.packages,
                        name,
                        PackageView { config: pkg.config.push(value), ..pkg },
                    ),
                    ..st.cfg
                },
                ..st
            },
            None => st,
        },
        None => st,
    }
}

/// `:service <name>`: sets the open package's service; anything from the
/// first `[` on is ignored.
pub open spec fn step_service_directive(st: ParseState, rest: Seq<char>) -> ParseState {
    let part = match find_from(rest, seq!['['], 0) {
        Some(i) => rest.subrange(0, i),
        None => rest,
    };
    let sname = trim_spec(part);
    match st.current {
        Some(name) => match assoc_get(st.cfg.packages, name) {
            Some(pkg) => ParseState {
                cfg: ConfigView {
                    packages: assoc_set(
                        st.cfg.packages,
                        name,
                        PackageView { service: Some(sname), ..pkg },
                    ),
                    ..st.cfg
                },
                ..st
            },
            None => st,
        },
        None => st,
    }
}

/// `:env <KEY>=<VALUE>`: binds a package-scoped variable; a line without
/// `=` is ignored.
pub open spec fn step_package_env(st: ParseState, rest: Seq<char>) -> ParseState {
    match split_once_spec(rest, "="@) {
        Some(p) => match st.current {
            Some(name) => match assoc_get(st.cfg.packages, name) {
                Some(pkg) => ParseState {
                    cfg: ConfigView {
                        packages: assoc_set(
                            st.cfg.packages,
                            name,
                            PackageView {
                                env_vars: assoc_set(pkg.env_vars, trim_spec(p.0), trim_spec(p.1)),
                                ..pkg
                            },
                        ),
                        ..st.cfg
                    },
                    ..st
                },
                None => st,
            },
            None => st,
        },
        None => st,
    }
}

/// `@env <KEY>=<VALUE>`: binds a global variable; a line without `=` binds
/// nothing. As every `@`-line does, it closes a bare-name section.
pub open spec fn step_global_env(st: ParseState, rest: Seq<char>) -> ParseState {
    match split_once_spec(rest, "="@) {
        Some(p) => ParseState {
            cfg: ConfigView {
                env_vars: assoc_set(st.cfg.env_vars, trim_spec(p.0), trim_spec(p.1)),
                ..st.cfg
            },
            current: st.current,
            in_packages: false,
        },
        None => ParseState { in_packages: false, ..st },
    }
}

/// `@group <name>`: records a group reference and closes the open block.
pub open spec fn step_group_decl(st: ParseState, rest: Seq<char>) -> ParseState {
    ParseState {
        cfg: ConfigView { groups: st.cfg.groups.push(trim_spec(rest)), ..st.cfg },
        current: None,
        in_packages: false,
    }
}

/// A bare line inside a `@packages` section: declares an empty package.
pub open spec fn step_bare_package(st: ParseState, line: Seq<char>) -> ParseState {
    let name = trim_spec(line);
    ParseState {
        cfg: ConfigView {
            packages: assoc_set(st.cfg.packages, name, Package::empty_spec()),
            ..st.cfg
        },
        ..st
    }
}

/// What one non-empty, non-comment, already trimmed line does to the state.
pub open spec fn dispatch_line(st: ParseState, line: Seq<char>) -> ParseState {
    if starts_with_spec(line, "@package "@) {
        step_package_decl(st, line.subrange("@package "@.len() as int, line.len() as int))
    } else if starts_with_spec(line, "@pkg "@) {
        step_package_decl(st, line.subrange("@pkg "@.len() as int, line.len() as int))
    } else if line == "@packages"@ || line == "@pkgs"@ {
        ParseState { cfg: st.cfg, current: None, in_packages: true }
    } else if starts_with_spec(line, ":config "@) {
        step_config_directive(st, line.subrange(":config "@.len() as int, line.len() as int))
    } else if starts_with_spec(line, ":cfg "@) {
        step_config_directive(st, line.subrange(":cfg "@.len() as int, line.len() as int))
    } else if starts_with_spec(line, ":service "@) {
        step_service_directive(st, line.subrange(":service "@.len() as int, line.len() as int))
    } else if starts_with_spec(line, ":env "@) {
        step_package_env(st, line.subrange(":env "@.len() as int, line.len() as int))
    } else if starts_with_spec(line, "@env "@) {
        step_global_env(st, line.subrange("@env "@.len() as int, line.len() as int))
    } else if starts_with_spec(line, "@group "@) {
        step_group_decl(st, line.subrange("@group "@.len() as int, line.len() as int))
    } else if line.len() > 0 && line[0] == '@' {
        // An unknown `@`-line is ignored, but still closes a bare-name
        // section: the section runs until the next `@`-line.
        ParseState { in_packages: false, ..st }
    } else if line.len() > 0 && line[0] != ':' && st.in_packages {
        step_bare_package(st, line)
    } else {
        st
    }
}

/// What one raw line does: it is trimmed, and blank lines and comments are
/// skipped.
pub open spec fn step_line(st: ParseState, raw: Seq<char>) -> ParseState {
    let line = trim_spec(raw);
    if line.len() == 0 || line[0] == '#' {
        st
    } else {
        dispatch_line(st, line)
    }
}

/// The fold of [`step_line`] over a sequence of lines.
pub open spec fn parse_lines_spec(st: ParseState, lines: Seq<Seq<char>>) -> ParseState
    decreases lines.len(),
{
    if lines.len() == 0 {
        st
    } else {
        parse_lines_spec(step_line(st, lines[0]), lines.drop_first())
    }
}

/// What parsing a whole document yields.
pub open spec fn spec_parse(content: Seq<char>) -> ConfigView {
    parse_lines_spec(initial_state(), lines_spec(content)).cfg
}

/// A step that rewrites the open package keeps the configuration well
/// formed, for each of the three `:`-directive shapes.
proof fn lemma_directive_wf(st: ParseState, rest: Seq<char>)
    requires
        config_wf(st.cfg),
    ensures
        config_wf(step_config_directive(st, rest).cfg),
        config_wf(step_service_directive(st, rest).cfg),
        config_wf(step_package_env(st, rest).cfg),
{
    let c = st.cfg;
    if st.current is Some && assoc_get(c.packages, st.current->Some_0) is Some {
        let name = st.current->Some_0;
        let pkg = assoc_get(c.packages, name)->Some_0;
        lemma_pkg_env_unique(c, name);
        let value = match split_once_spec(rest, " -> "@) {
            Some(p) => trim_spec(p.0) + " -> "@ + trim_spec(p.1),
            None => trim_spec(rest),
        };
        lemma_set_package_wf(c, name, PackageView { config: pkg.config.push(value), ..pkg },
            c.groups);
        let part = match find_from(rest, seq!['['], 0) {
            Some(i) => rest.subrange(0, i),
            None => rest,
        };
        lemma_set_package_wf(c, name, PackageView { service: Some(trim_spec(part)), ..pkg },
            c.groups);
        if split_once_spec(rest, "="@) is Some {
            let p = split_once_spec(rest, "="@)->Some_0;
            lemma_assoc_set_unique(pkg.env_vars, trim_spec(p.0), trim_spec(p.1));
            lemma_set_package_wf(c, name, PackageView {
                env_vars: assoc_set(pkg.env_vars, trim_spec(p.0), trim_spec(p.1)),
                ..pkg
            }, c.groups);
        }
    }
}

/// A parse step keeps the configuration well formed.
pub proof fn lemma_dispatch_wf(st: ParseState, line: Seq<char>)
    requires
        config_wf(st.cfg),
    ensures
        config_wf(dispatch_line(st, line).cfg),
{
    let c = st.cfg;
    if starts_with_spec(line, "@package "@) {
        let rest = line.subrange("@package "@.len() as int, line.len() as int);
        lemma_set_package_wf(c, trim_spec(rest), Package::empty_spec(), c.groups);
    } else if starts_with_spec(line, "@pkg "@) {
        let rest = line.subrange("@pkg "@.len() as int, line.len() as int);
        lemma_set_package_wf(c, trim_spec(rest), Package::empty_spec(), c.groups);
    } else if line == "@packages"@ || line == "@pkgs"@ {
    } else if starts_with_spec(line, ":config "@) {
        lemma_directive_wf(st, line.subrange(":config "@.len() as int, line.len() as int));
    } else if starts_with_spec(line, ":cfg "@) {
        lemma_directive_wf(st, line.subrange(":cfg "@.len() as int, line.len() as int));
    } else if starts_with_spec(line, ":service "@) {
        lemma_directive_wf(st, line.subrange(":service "@.len() as int, line.len() as int));
    } else if starts_with_spec(line, ":env "@) {
        lemma_directive_wf(st, line.subrange(":env "@.len() as int, line.len() as int));
    } else if starts_with_spec(line, "@env "@) {
        let rest = line.subrange("@env "@.len() as int, line.len() as int);
        if split_once_spec(rest, "="@) is Some {
            let p = split_once_spec(rest, "="@)->Some_0;
            lemma_assoc_set_unique(c.env_vars, trim_spec(p.0), trim_spec(p.1));
        }
    } else if starts_with_spec(line, "@group "@) {
    } else if line.len() > 0 && line[0] == '@' {
    } else if line.len() > 0 && line[0] != ':' && st.in_packages {
        lemma_set_package_wf(c, trim_spec(line), Package::empty_spec(), c.groups);
    }
}

/// Folding lines keeps the configuration well formed.
pub proof fn lemma_parse_lines_wf(st: ParseState, lines: Seq<Seq<char>>)
    requires
        config_wf(st.cfg),
    ensures
        config_wf(parse_lines_spec(st, lines).cfg),
    decreases lines.len(),
{
    if lines.len() > 0 {
        let t = trim_spec(lines[0]);
        if t.len() == 0 || t[0] == '#' {
        } else {
            lemma_dispatch_wf(st, t);
        }
        lemma_parse_lines_wf(step_line(st, lines[0]), lines.drop_first());
    }
}

/// What the parser yields is well formed, whatever the document.
pub proof fn lemma_spec_parse_wf(content: Seq<char>)
    ensures
        config_wf(spec_parse(content)),
{
    lemma_parse_lines_wf(initial_state(), lines_spec(content));
}

impl Config {
    /// Parses one document, as [`spec_parse`] describes. Unknown lines are
    /// ignored, so every document parses.
    pub fn parse(content: &str) -> (r: Result<Config, String>)
        ensures
            r is Ok,
            r.unwrap()@ == spec_parse(content@),
            r.unwrap().wf(),
    {
        let lines = strutil::split_lines(content);
        let n: usize = lines.len();
        let mut config = Config::new();
        let mut current_package: Option<String> = None;
        let mut in_packages_section: bool = false;
        let ghost all = lines.deep_view();
        let mut i: usize = 0;
        proof {
            assert(all.skip(0) =~= all);
        }
        while i < n
            invariant
                0 <= i <= n,
                n == lines.len(),
                all == lines.deep_view(),
                config.wf(),
                parse_lines_spec(initial_state(), all) == parse_lines_spec(
                    ParseState {
                        cfg: config@,
                        current: opt_view(current_package),
                        in_packages: in_packages_section,
                    },
                    all.skip(i as int),
                ),
            decreases n - i,
        {
            let ghost st = ParseState {
                cfg: config@,
                current: opt_view(current_package),
                in_packages: in_packages_section,
            };
            proof {
                assert(all.skip(i as int)[0] == all[i as int]);
                assert(all.skip(i as int).drop_first() =~= all.skip(i + 1));
            }
            let line = strutil::trim(lines[i].as_str());
            if !line.is_empty() && line.get_char(0) != '#' {
                // parse_line accepts every line, so the result carries no error.
                let _ = Config::parse_line(
                    &mut config,
                    &mut current_package,
                    &mut in_packages_section,
                    line,
                );
                proof {
                    assert(step_line(st, all[i as int]) == dispatch_line(st, line@));
                }
            } else {
                proof {
                    assert(step_line(st, all[i as int]) == st);
                }
            }
            i = i + 1;
        }
        proof {
            assert(all.skip(n as int) =~= Seq::<Seq<char>>::empty());
        }
        Ok(config)
    }

    /// Applies one trimmed, non-blank, non-comment line to the state, as
    /// [`dispatch_line`] describes.
    fn parse_line(
        config: &mut Config,
        current_package: &mut Option<String>,
        in_packages_section: &mut bool,
        line: &str,
    ) -> (r: Result<(), String>)
        requires
            old(config).wf(),
        ensures
            r is Ok,
            ({
                let st1 = dispatch_line(
                    ParseState {
                        cfg: old(config)@,
                        current: opt_view(*old(current_package)),
                        in_packages: *old(in_packages_section),
                    },
                    line@,
                );
                final(config)@ == st1.cfg && opt_view(*final(current_package)) == st1.current
                    && *final(in_packages_section) == st1.in_packages
            }),
            final(config).wf(),
    {
        let ghost st = ParseState {
            cfg: old(config)@,
            current: opt_view(*old(current_package)),
            in_packages: *old(in_packages_section),
        };
        proof {
            lemma_dispatch_wf(st, line@);
        }
        if let Some(rest) = strutil::strip_prefix(line, "@package ") {
            Config::parse_package_declaration(config, current_package, in_packages_section, rest);
        } else if let Some(rest) = strutil::strip_prefix(line, "@pkg ") {
            Config::parse_package_declaration(config, current_package, in_packages_section, rest);
        } else if strutil::str_eq(line, "@packages") || strutil::str_eq(line, "@pkgs") {
            *in_packages_section = true;
            *current_package = None;
        } else if let Some(rest) = strutil::strip_prefix(line, ":config ") {
            Config::parse_config_directive(config, current_package, rest);
        } else if let Some(rest) = strutil::strip_prefix(line, ":cfg ") {
            Config::parse_config_directive(config, current_package, rest);
        } else if let Some(rest) = strutil::strip_prefix(line, ":service ") {
            Config::parse_service_directive(config, current_package, rest);
        } else if let Some(rest) = strutil::strip_prefix(line, ":env ") {
            Config::parse_package_env_directive(config, current_package, rest);
        } else if let Some(rest) = strutil::strip_prefix(line, "@env ") {
            Config::parse_global_env_directive(config, in_packages_section, rest);
        } else if let Some(rest) = strutil::strip_prefix(line, "@group ") {
            Config::parse_group_declaration(config, current_package, in_packages_section, rest);
        } else {
            let n = line.unicode_len();
            if n > 0 && line.get_char(0) == '@' {
                *in_packages_section = false;
            } else if n > 0 && line.get_char(0) != ':' && *in_packages_section {
                Config::parse_package_in_section(config, line);
            }
        }
        Ok(())
    }

    /// Declares the package a `@package` / `@pkg` line names, as
    /// [`step_package_decl`] describes.
    fn parse_package_declaration(
        config: &mut Config,
        current_package: &mut Option<String>,
        in_packages_section: &mut bool,
        rest: &str,
    )
        ensures
            ({
                let st1 = step_package_decl(
                    ParseState {
                        cfg: old(config)@,
                        current: opt_view(*old(current_package)),
                        in_packages: *old(in_packages_section),
                    },
                    rest@,
                );
                final(config)@ == st1.cfg && opt_view(*final(current_package)) == st1.current
                    && *final(in_packages_section) == st1.in_packages
            }),
    {
        *in_packages_section = false;
        let name = strutil::trim(rest).to_owned();
        *current_package = Some(name.clone());
        config.packages.insert(name, Package::new());
    }

    /// Declares the package a bare line in a `@packages` section names, as
    /// [`step_bare_package`] describes.
    fn parse_package_in_section(config: &mut Config, line: &str)
        ensures
            final(config)@ == step_bare_package(
                ParseState { cfg: old(config)@, current: None, in_packages: true },
                line@,
            ).cfg,
    {
        let name = strutil::trim(line).to_owned();
        config.packages.insert(name, Package::new());
    }

    /// Attaches a dotfile mapping to the open package, as
    /// [`step_config_directive`] describes.
    fn parse_config_directive(config: &mut Config, current_package: &Option<String>, rest: &str)
        ensures
            ({
                let st1 = step_config_directive(
                    ParseState {
                        cfg: old(config)@,
                        current: opt_view(*current_package),
                        in_packages: false,
                    },
                    rest@,
                );
                final(config)@ == st1.cfg
            }),
    {
        let value: String = match strutil::split_once(rest, " -> ") {
            Some((src, dst)) => {
                let mut v = strutil::trim(src).to_owned();
                v.append(" -> ");
                v.append(strutil::trim(dst));
                v
            },
            None => strutil::trim(rest).to_owned(),
        };
        if let Some(pkg_name) = current_package {
            if let Some(package) = config.packages.get(pkg_name.as_str()) {
                let mut p = package.duplicate();
                let ghost oldp = p@;
                p.config.push(value);
                proof {
                    assert(p@.config =~= oldp.config.push(
                        match split_once_spec(rest@, " -> "@) {
                            Some(q) => trim_spec(q.0) + " -> "@ + trim_spec(q.1),
                            None => trim_spec(rest@),
                        },
                    ));
                }
                config.packages.insert(pkg_name.clone(), p);
            }
        }
    }

    /// Sets the open package's service name, as [`step_service_directive`]
    /// describes.
    fn parse_service_directive(config: &mut Config, current_package: &Option<String>, rest: &str)
        ensures
            ({
                let st1 = step_service_directive(
                    ParseState {
                        cfg: old(config)@,
                        current: opt_view(*current_package),
                        in_packages: false,
                    },
                    rest@,
                );
                final(config)@ == st1.cfg
            }),
    {
        let part: &str = match strutil::find(rest, "[") {
            Some(pos) => rest.substring_char(0, pos),
            None => rest,
        };
        proof {
            reveal_strlit("[");
            assert("["@ =~= seq!['[']);
        }
        let sname = strutil::trim(part).to_owned();
        if let Some(pkg_name) = current_package {
            if let Some(package) = config.packages.get(pkg_name.as_str()) {
                let mut p = package.duplicate();
                p.service = Some(sname);
                config.packages.insert(pkg_name.clone(), p);
            }
        }
    }

    /// Binds a package-scoped environment variable, as [`step_package_env`]
    /// describes.
    fn parse_package_env_directive(
        config: &mut Config,
        current_package: &Option<String>,
        rest: &str,
    )
        ensures
            ({
                let st1 = step_package_env(
                    ParseState {
                        cfg: old(config)@,
                        current: opt_view(*current_package),
                        in_packages: false,
                    },
                    rest@,
                );
                final(config)@ == st1.cfg
            }),
    {
        if let Some((key, value)) = strutil::split_once(rest, "=") {
            if let Some(pkg_name) = current_package {
                if let Some(package) = config.packages.get(pkg_name.as_str()) {
                    let mut p = package.duplicate();
                    p.env_vars.insert(strutil::trim(key).to_owned(), strutil::trim(value).to_owned());
                    config.packages.insert(pkg_name.clone(), p);
                }
            }
        }
    }

    /// Binds a global environment variable, as [`step_global_env`]
    /// describes.
    fn parse_global_env_directive(config: &mut Config, in_packages_section: &mut bool, rest: &str)
        ensures
            ({
                let st1 = step_global_env(
                    ParseState {
                        cfg: old(config)@,
                        current: None,
                        in_packages: *old(in_packages_section),
                    },
                    rest@,
                );
                final(config)@ == st1.cfg && *final(in_packages_section) == st1.in_packages
            }),
    {
        if let Some((key, value)) = strutil::split_once(rest, "=") {
            config.env_vars.insert(strutil::trim(key).to_owned(), strutil::trim(value).to_owned());
        }
        *in_packages_section = false;
    }

    /// Records a group reference, as [`step_group_decl`] describes.
    fn parse_group_declaration(
        config: &mut Config,
        current_package: &mut Option<String>,
        in_packages_section: &mut bool,
        rest: &str,
    )
        ensures
            ({
                let st1 = step_group_decl(
                    ParseState {
                        cfg: old(config)@,
                        current: opt_view(*old(current_package)),
                        in_packages: *old(in_packages_section),
                    },
                    rest@,
                );
                final(config)@ == st1.cfg && opt_view(*final(current_package)) == st1.current
                    && *final(in_packages_section) == st1.in_packages
            }),
    {
        let ghost oldg = config.groups.deep_view();
        config.groups.push(strutil::trim(rest).to_owned());
        proof {
            assert(config.groups.deep_view() =~= oldg.push(trim_spec(rest@)));
        }
        *current_package = None;
        *in_packages_section = false;
    }
}

} // verus!
