//! Rewriting a configuration document into its canonical layout: group
//! references first, then global environment variables, then one block per
//! package with directives, then the bare package names under one `@pkgs`
//! section — each part sorted and deduplicated by the data model.

use vstd::prelude::*;

use crate::config::{assoc_get, assoc_unique, Config, EnvMap, PackageView};
use crate::strutil;
use crate::strutil::{join_spec, lemma_sort_contains, sort_lex_spec};

verus! {

/// The package declares nothing: no dotfile mapping, no service, no
/// environment variable.
pub open spec fn is_loose(p: PackageView) -> bool {
    p.config.len() == 0 && p.service is None && p.env_vars.len() == 0
}

/// The names of the packages with no directives, in declaration order.
pub open spec fn loose_names(pkgs: Seq<(Seq<char>, PackageView)>) -> Seq<Seq<char>>
    decreases pkgs.len(),
{
    if pkgs.len() == 0 {
        Seq::empty()
    } else {
        loose_names(pkgs.drop_last()) + (if is_loose(pkgs.last().1) {
            seq![pkgs.last().0]
        } else {
            Seq::<Seq<char>>::empty()
        })
    }
}

/// The names of the packages with directives, in declaration order.
pub open spec fn directive_names(pkgs: Seq<(Seq<char>, PackageView)>) -> Seq<Seq<char>>
    decreases pkgs.len(),
{
    if pkgs.len() == 0 {
        Seq::empty()
    } else {
        directive_names(pkgs.drop_last()) + (if is_loose(pkgs.last().1) {
            Seq::<Seq<char>>::empty()
        } else {
            seq![pkgs.last().0]
        })
    }
}

/// The `@group` lines of the group section.
pub open spec fn group_lines(gs: Seq<Seq<char>>) -> Seq<Seq<char>> {
    gs.map_values(|g: Seq<char>| "@group "@ + g)
}

/// The `@env` lines of the global environment section.
pub open spec fn env_lines(es: Seq<(Seq<char>, Seq<char>)>) -> Seq<Seq<char>> {
    es.map_values(|e: (Seq<char>, Seq<char>)| "@env "@ + e.0 + "="@ + e.1)
}

/// The lines of one package block: the `@pkg` header, then `:cfg`, then
/// `:service`, then `:env` directives.
pub open spec fn pkg_lines(name: Seq<char>, p: PackageView) -> Seq<Seq<char>> {
    seq!["@pkg "@ + name] + p.config.map_values(|e: Seq<char>| ":cfg "@ + e) + (match p.service {
        Some(s) => seq![":service "@ + s],
        None => Seq::<Seq<char>>::empty(),
    }) + p.env_vars.map_values(|e: (Seq<char>, Seq<char>)| ":env "@ + e.0 + "="@ + e.1)
}

/// One package block as text.
pub open spec fn pkg_block(pkgs: Seq<(Seq<char>, PackageView)>, name: Seq<char>) -> Seq<char> {
    join_spec(pkg_lines(name, assoc_get(pkgs, name)->Some_0), seq!['\n'])
}

/// The canonical text of a configuration: the sections in their fixed
/// order, joined by blank lines, each sorted.
pub open spec fn spec_optimize(c: crate::config::ConfigView) -> Seq<char> {
    let gs = sort_lex_spec(c.groups);
    let dirs = sort_lex_spec(directive_names(c.packages));
    let loose = sort_lex_spec(loose_names(c.packages));
    let sections = (if gs.len() > 0 {
        seq![join_spec(group_lines(gs), seq!['\n'])]
    } else {
        Seq::<Seq<char>>::empty()
    }) + (if c.env_vars.len() > 0 {
        seq![join_spec(env_lines(c.env_vars), seq!['\n'])]
    } else {
        Seq::<Seq<char>>::empty()
    }) + dirs.map_values(|n: Seq<char>| pkg_block(c.packages, n)) + (if loose.len() > 0 {
        seq![join_spec(seq!["@pkgs"@] + loose, seq!['\n'])]
    } else {
        Seq::<Seq<char>>::empty()
    });
    join_spec(sections, seq!['\n', '\n'])
}

/// A name among the directive names is a declared package.
pub proof fn lemma_directive_name_declared(pkgs: Seq<(Seq<char>, PackageView)>, name: Seq<char>)
    requires
        directive_names(pkgs).contains(name),
    ensures
        exists|j: int| 0 <= j < pkgs.len() && #[trigger] pkgs[j].0 == name,
    decreases pkgs.len(),
{
    if pkgs.len() > 0 {
        if pkgs.last().0 == name {
            assert(pkgs[pkgs.len() - 1].0 == name);
        } else {
            assert(directive_names(pkgs.drop_last()).contains(name)) by {
                let d = directive_names(pkgs);
                let i = choose|i: int| 0 <= i < d.len() && d[i] == name;
                assert(i < directive_names(pkgs.drop_last()).len());
            }
            lemma_directive_name_declared(pkgs.drop_last(), name);
            let j = choose|j: int|
                0 <= j < pkgs.drop_last().len() && #[trigger] pkgs.drop_last()[j].0 == name;
            assert(pkgs[j].0 == name);
        }
    }
}

/// A declared name is found by `assoc_get`.
pub proof fn lemma_declared_found(pkgs: Seq<(Seq<char>, PackageView)>, name: Seq<char>)
    requires
        exists|j: int| 0 <= j < pkgs.len() && #[trigger] pkgs[j].0 == name,
    ensures
        assoc_get(pkgs, name) is Some,
    decreases pkgs.len(),
{
    if pkgs.len() > 0 && pkgs[0].0 != name {
        let j = choose|j: int| 0 <= j < pkgs.len() && #[trigger] pkgs[j].0 == name;
        assert(pkgs.drop_first()[j - 1].0 == name);
        lemma_declared_found(pkgs.drop_first(), name);
    }
}

/// Builds `prefix + text` as one string.
fn prefixed(prefix: &str, text: &str) -> (r: String)
    ensures
        r@ == prefix@ + text@,
{
    let mut s = String::from_str(prefix);
    s.append(text);
    s
}

/// Builds `prefix + key + "=" + value` as one string.
fn key_value_line(prefix: &str, key: &str, value: &str) -> (r: String)
    ensures
        r@ == prefix@ + key@ + "="@ + value@,
{
    let mut s = String::from_str(prefix);
    s.append(key);
    s.append("=");
    s.append(value);
    s
}

/// The `@env` / `:env` lines of an environment map, in entry order.
fn build_env_lines(prefix: &str, env: &EnvMap) -> (r: Vec<String>)
    ensures
        r.deep_view() == env@.map_values(|e: (Seq<char>, Seq<char>)| prefix@ + e.0 + "="@ + e.1),
{
    let n: usize = env.entries.len();
    let mut out: Vec<String> = Vec::new();
    let mut i: usize = 0;
    while i < n
        invariant
            0 <= i <= n,
            n == env.entries.len(),
            out.deep_view() =~= env@.subrange(0, i as int).map_values(
                |e: (Seq<char>, Seq<char>)| prefix@ + e.0 + "="@ + e.1,
            ),
        decreases n - i,
    {
        let ghost before = out.deep_view();
        out.push(
            key_value_line(prefix, env.entries[i].key.as_str(), env.entries[i].value.as_str()),
        );
        proof {
            assert(out.deep_view() =~= before.push(prefix@ + env@[i as int].0 + "="@ + env@[
                i as int].1));
            assert(env@.subrange(0, i + 1).map_values(
                |e: (Seq<char>, Seq<char>)| prefix@ + e.0 + "="@ + e.1,
            ) =~= out.deep_view());
        }
        i = i + 1;
    }
    proof {
        assert(env@.subrange(0, n as int) =~= env@);
    }
    out
}

impl Config {
    /// Writes this configuration in its canonical, sorted layout, as
    /// [`spec_optimize`] describes.
    pub fn optimize_config(&self) -> (r: String)
        requires
            self.wf(),
        ensures
            r@ == spec_optimize(self@),
    {
        proof {
            reveal_strlit("\n");
            reveal_strlit("\n\n");
            assert("\n"@ =~= seq!['\n']);
            assert("\n\n"@ =~= seq!['\n', '\n']);
        }
        let ghost pv = self@.packages;
        // Partition the package names.
        let pn: usize = self.packages.entries.len();
        let mut loose: Vec<String> = Vec::new();
        let mut withdir: Vec<String> = Vec::new();
        let mut i: usize = 0;
        proof {
            assert(loose_names(pv.subrange(0, 0)) =~= loose.deep_view());
            assert(directive_names(pv.subrange(0, 0)) =~= withdir.deep_view());
        }
        while i < pn
            invariant
                0 <= i <= pn,
                pn == self.packages.entries.len(),
                pv == self@.packages,
                loose.deep_view() == loose_names(pv.subrange(0, i as int)),
                withdir.deep_view() == directive_names(pv.subrange(0, i as int)),
            decreases pn - i,
        {
            proof {
                let cur = pv.subrange(0, i + 1);
                assert(cur.drop_last() =~= pv.subrange(0, i as int));
                assert(cur.last() == pv[i as int]);
            }
            let slot = &self.packages.entries[i];
            let bare = slot.package.config.len() == 0 && slot.package.service.is_none()
                && slot.package.env_vars.entries.len() == 0;
            proof {
                assert(slot.package@.config.len() == slot.package.config@.len());
            }
            if bare {
                let ghost before = loose.deep_view();
                loose.push(slot.name.clone());
                proof {
                    assert(loose.deep_view() =~= before.push(pv[i as int].0));
                    assert(withdir.deep_view() =~= directive_names(pv.subrange(0, i + 1)));
                }
            } else {
                let ghost before = withdir.deep_view();
                withdir.push(slot.name.clone());
                proof {
                    assert(withdir.deep_view() =~= before.push(pv[i as int].0));
                    assert(loose.deep_view() =~= loose_names(pv.subrange(0, i + 1)));
                }
            }
            i = i + 1;
        }
        proof {
            assert(pv.subrange(0, pn as int) =~= pv);
        }
        let loose_sorted = strutil::sort_strings(&loose);
        let dirs_sorted = strutil::sort_strings(&withdir);
        let groups_sorted = strutil::sort_strings(&self.groups);

        let mut sections: Vec<String> = Vec::new();
        // Group section.
        if groups_sorted.len() > 0 {
            let gn: usize = groups_sorted.len();
            let mut lines: Vec<String> = Vec::new();
            let mut g: usize = 0;
            while g < gn
                invariant
                    0 <= g <= gn,
                    gn == groups_sorted.len(),
                    lines.deep_view() =~= group_lines(
                        groups_sorted.deep_view().subrange(0, g as int),
                    ),
                decreases gn - g,
            {
                let ghost before = lines.deep_view();
                lines.push(prefixed("@group ", groups_sorted[g].as_str()));
                proof {
                    assert(lines.deep_view() =~= before.push(
                        "@group "@ + groups_sorted.deep_view()[g as int],
                    ));
                    assert(group_lines(groups_sorted.deep_view().subrange(0, g + 1))
                        =~= lines.deep_view());
                }
                g = g + 1;
            }
            proof {
                assert(groups_sorted.deep_view().subrange(0, gn as int)
                    =~= groups_sorted.deep_view());
            }
            let ghost before = sections.deep_view();
            let joined = strutil::join_strings(&lines, "\n");
            sections.push(joined);
            proof {
                assert(sections.deep_view() =~= before.push(
                    join_spec(group_lines(groups_sorted.deep_view()), "\n"@),
                ));
            }
        }
        // Global environment section.
        if self.env_vars.entries.len() > 0 {
            let lines = build_env_lines("@env ", &self.env_vars);
            let ghost before = sections.deep_view();
            let joined = strutil::join_strings(&lines, "\n");
            sections.push(joined);
            proof {
                assert(sections.deep_view() =~= before.push(
                    join_spec(env_lines(self@.env_vars), "\n"@),
                ));
            }
        }
        // One block per package with directives.
        let ghost sections_before_blocks = sections.deep_view();
        let dn: usize = dirs_sorted.len();
        let mut d: usize = 0;
        while d < dn
            invariant
                0 <= d <= dn,
                dn == dirs_sorted.len(),
                pv == self@.packages,
                self.wf(),
                "\n"@ == seq!['\n'],
                dirs_sorted.deep_view() == sort_lex_spec(directive_names(pv)),
                sections.deep_view() =~= sections_before_blocks + dirs_sorted.deep_view().subrange(
                    0,
                    d as int,
                ).map_values(|n: Seq<char>| pkg_block(pv, n)),
            decreases dn - d,
        {
            let name = &dirs_sorted[d];
            proof {
                assert(dirs_sorted.deep_view().contains(name@)) by {
                    assert(dirs_sorted.deep_view()[d as int] == name@);
                }
                lemma_sort_contains(directive_names(pv));
                lemma_directive_name_declared(pv, name@);
                lemma_declared_found(pv, name@);
            }
            let package = self.packages.get(name.as_str()).unwrap();
            let ghost p = assoc_get(pv, name@)->Some_0;
            let mut lines: Vec<String> = Vec::new();
            lines.push(prefixed("@pkg ", name.as_str()));
            let cn: usize = package.config.len();
            let mut ci: usize = 0;
            proof {
                assert(lines.deep_view() =~= seq!["@pkg "@ + name@]);
            }
            while ci < cn
                invariant
                    0 <= ci <= cn,
                    cn == package.config.len(),
                    package@ == p,
                    lines.deep_view() =~= seq!["@pkg "@ + name@] + p.config.subrange(
                        0,
                        ci as int,
                    ).map_values(|e: Seq<char>| ":cfg "@ + e),
                decreases cn - ci,
            {
                let ghost before = lines.deep_view();
                lines.push(prefixed(":cfg ", package.config[ci].as_str()));
                proof {
                    assert(lines.deep_view() =~= before.push(":cfg "@ + p.config[ci as int]));
                    assert(p.config.subrange(0, ci + 1).map_values(|e: Seq<char>| ":cfg "@ + e)
                        =~= p.config.subrange(0, ci as int).map_values(
                        |e: Seq<char>| ":cfg "@ + e,
                    ).push(":cfg "@ + p.config[ci as int]));
                }
                ci = ci + 1;
            }
            proof {
                assert(p.config.subrange(0, cn as int) =~= p.config);
            }
            if let Some(svc) = &package.service {
                lines.push(prefixed(":service ", svc.as_str()));
            }
            let env_lines_vec = build_env_lines(":env ", &package.env_vars);
            let en: usize = env_lines_vec.len();
            let mut ei: usize = 0;
            let ghost lines_before_env = lines.deep_view();
            while ei < en
                invariant
                    0 <= ei <= en,
                    en == env_lines_vec.len(),
                    lines.deep_view() =~= lines_before_env + env_lines_vec.deep_view().subrange(
                        0,
                        ei as int,
                    ),
                decreases en - ei,
            {
                let ghost before = lines.deep_view();
                lines.push(env_lines_vec[ei].clone());
                proof {
                    assert(lines.deep_view() =~= before.push(
                        env_lines_vec.deep_view()[ei as int],
                    ));
                }
                ei = ei + 1;
            }
            proof {
                assert(env_lines_vec.deep_view().subrange(0, en as int)
                    =~= env_lines_vec.deep_view());
                assert(lines.deep_view() =~= pkg_lines(name@, p));
            }
            let block = strutil::join_strings(&lines, "\n");
            let ghost before = sections.deep_view();
            sections.push(block);
            proof {
                assert(sections.deep_view() =~= before.push(pkg_block(pv, name@)));
                assert(dirs_sorted.deep_view().subrange(0, d + 1).map_values(
                    |n: Seq<char>| pkg_block(pv, n),
                ) =~= dirs_sorted.deep_view().subrange(0, d as int).map_values(
                    |n: Seq<char>| pkg_block(pv, n),
                ).push(pkg_block(pv, name@)));
            }
            d = d + 1;
        }
        proof {
            assert(dirs_sorted.deep_view().subrange(0, dn as int) =~= dirs_sorted.deep_view());
        }
        // Bare names under one `@pkgs` section.
        if loose_sorted.len() > 0 {
            let mut lines: Vec<String> = Vec::new();
            lines.push("@pkgs".to_owned());
            let ln: usize = loose_sorted.len();
            let mut li: usize = 0;
            proof {
                assert(lines.deep_view() =~= seq!["@pkgs"@] + loose_sorted.deep_view().subrange(
                    0,
                    0,
                ));
            }
            while li < ln
                invariant
                    0 <= li <= ln,
                    ln == loose_sorted.len(),
                    lines.deep_view() =~= seq!["@pkgs"@] + loose_sorted.deep_view().subrange(
                        0,
                        li as int,
                    ),
                decreases ln - li,
            {
                let ghost before = lines.deep_view();
                lines.push(loose_sorted[li].clone());
                proof {
                    assert(lines.deep_view() =~= before.push(
                        loose_sorted.deep_view()[li as int],
                    ));
                }
                li = li + 1;
            }
            proof {
                assert(loose_sorted.deep_view().subrange(0, ln as int)
                    =~= loose_sorted.deep_view());
            }
            let ghost before = sections.deep_view();
            let joined = strutil::join_strings(&lines, "\n");
            sections.push(joined);
            proof {
                assert(sections.deep_view() =~= before.push(
                    join_spec(seq!["@pkgs"@] + loose_sorted.deep_view(), "\n"@),
                ));
            }
        }
        let result = strutil::join_strings(&sections, "\n\n");
        proof {
            assert(sections.deep_view() =~= (if sort_lex_spec(self@.groups).len() > 0 {
                seq![join_spec(group_lines(sort_lex_spec(self@.groups)), seq!['\n'])]
            } else {
                Seq::<Seq<char>>::empty()
            }) + (if self@.env_vars.len() > 0 {
                seq![join_spec(env_lines(self@.env_vars), seq!['\n'])]
            } else {
                Seq::<Seq<char>>::empty()
            }) + sort_lex_spec(directive_names(pv)).map_values(
                |n: Seq<char>| pkg_block(pv, n),
            ) + (if sort_lex_spec(loose_names(pv)).len() > 0 {
                seq![join_spec(seq!["@pkgs"@] + sort_lex_spec(loose_names(pv)), seq!['\n'])]
            } else {
                Seq::<Seq<char>>::empty()
            }));
        }
        result
    }
}

} // verus!
