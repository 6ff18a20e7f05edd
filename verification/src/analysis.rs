//! The figures of the pre-apply analysis — how many packages carry
//! dotfiles, how many environment variables the run will write — and the
//! small text edits around them: bracketed numbering for pickers, adding a
//! package name to a document's bare-name section, and splitting verbosity
//! flags off an argument list.

use vstd::prelude::*;

use crate::config::{Config, PackageView};
use crate::planner::{PackageAction, PkgGroup};
use crate::state::PackageState;
use crate::strutil;
use crate::strutil::{int_str, join_spec, lines_spec, trim_spec};

verus! {

/// What one reconciliation run decides before it touches anything: the
/// planned actions and the counts the summary prints.
#[derive(Debug)]
pub struct Analysis {
    pub package_count: usize,
    pub actions: Vec<PackageAction>,
    pub dotfile_count: usize,
    pub service_count: usize,
    pub config_package_count: usize,
}

impl Analysis {
    /// Plans the run from the loaded configuration, ledger and observed
    /// installed set: the actions meet the planner's contract, and each
    /// count equals its spec.
    pub fn build(
        config: &Config,
        state: &PackageState,
        installed: &Vec<String>,
        groups: &Vec<PkgGroup>,
        package_count: usize,
    ) -> (r: Analysis)
        requires
            config.wf(),
            crate::chain::no_dup(installed.deep_view()),
        ensures
            r.package_count == package_count,
            crate::planner::actions_distinct(r.actions@),
            forall|p: Seq<char>|
                #[trigger] crate::planner::has_install(r.actions@, p) == (crate::config::assoc_get(
                    config@.packages,
                    p,
                ) is Some && !crate::planner::spec_installed(
                    p,
                    installed.deep_view(),
                    crate::planner::groups_view(groups@),
                )),
            forall|p: Seq<char>|
                #[trigger] crate::planner::has_remove(r.actions@, p) == (
                installed.deep_view().contains(p) && crate::config::assoc_get(
                    config@.packages,
                    p,
                ) is None && state.managed.deep_view().contains(p)),
            r.dotfile_count == count_dotfiles_spec(config@.packages),
            r.service_count == crate::services::configured_services_spec(config@).len(),
            r.config_package_count == config@.packages.len(),
    {
        let actions = crate::planner::plan_package_actions(config, state, installed, groups);
        let dotfile_count = count_dotfile_packages(config);
        let service_count = crate::services::get_configured_services(config).len();
        let config_package_count = config.packages.len();
        Analysis { package_count, actions, dotfile_count, service_count, config_package_count }
    }
}

/// How many packages declare at least one dotfile mapping.
pub open spec fn count_dotfiles_spec(pkgs: Seq<(Seq<char>, PackageView)>) -> nat
    decreases pkgs.len(),
{
    if pkgs.len() == 0 {
        0
    } else {
        count_dotfiles_spec(pkgs.drop_last()) + (if pkgs.last().1.config.len() > 0 {
            1nat
        } else {
            0nat
        })
    }
}

/// Counts the packages with a dotfile mapping, as [`count_dotfiles_spec`]
/// describes.
pub fn count_dotfile_packages(config: &Config) -> (r: usize)
    ensures
        r == count_dotfiles_spec(config@.packages),
{
    let ghost pv = config@.packages;
    let n: usize = config.packages.entries.len();
    let mut count: usize = 0;
    let mut i: usize = 0;
    proof {
        assert(count_dotfiles_spec(pv.subrange(0, 0)) == 0);
    }
    while i < n
        invariant
            0 <= i <= n,
            n == config.packages.entries.len(),
            pv == config@.packages,
            count == count_dotfiles_spec(pv.subrange(0, i as int)),
            count <= i,
        decreases n - i,
    {
        proof {
            let cur = pv.subrange(0, i + 1);
            assert(cur.drop_last() =~= pv.subrange(0, i as int));
            assert(cur.last() == pv[i as int]);
        }
        if config.packages.entries[i].package.config.len() > 0 {
            count = count + 1;
        }
        i = i + 1;
    }
    proof {
        assert(pv.subrange(0, n as int) =~= pv);
    }
    count
}

/// How many environment variables the configuration binds: the
/// package-scoped entries plus the global ones.
pub open spec fn count_env_spec(c: crate::config::ConfigView) -> nat {
    count_pkg_env_spec(c.packages) + c.env_vars.len()
}

/// The package-scoped entries alone.
pub open spec fn count_pkg_env_spec(pkgs: Seq<(Seq<char>, PackageView)>) -> nat
    decreases pkgs.len(),
{
    if pkgs.len() == 0 {
        0
    } else {
        count_pkg_env_spec(pkgs.drop_last()) + pkgs.last().1.env_vars.len()
    }
}

/// Counts all environment variables, as [`count_env_spec`] describes.
pub fn count_environment_variables(config: &Config) -> (r: usize)
    requires
        count_env_spec(config@) <= usize::MAX,
    ensures
        r == count_env_spec(config@),
{
    let ghost pv = config@.packages;
    let n: usize = config.packages.entries.len();
    let mut count: usize = 0;
    let mut i: usize = 0;
    proof {
        assert(count_pkg_env_spec(pv.subrange(0, 0)) == 0);
    }
    while i < n
        invariant
            0 <= i <= n,
            n == config.packages.entries.len(),
            pv == config@.packages,
            count == count_pkg_env_spec(pv.subrange(0, i as int)),
            count_pkg_env_spec(pv) + config@.env_vars.len() <= usize::MAX,
        decreases n - i,
    {
        proof {
            let cur = pv.subrange(0, i + 1);
            assert(cur.drop_last() =~= pv.subrange(0, i as int));
            assert(cur.last() == pv[i as int]);
            lemma_count_pkg_env_prefix(pv, i + 1);
        }
        count = count + config.packages.entries[i].package.env_vars.entries.len();
        i = i + 1;
    }
    proof {
        assert(pv.subrange(0, n as int) =~= pv);
        lemma_count_pkg_env_prefix(pv, n as int);
    }
    count + config.env_vars.entries.len()
}

/// A prefix never counts more than the whole.
proof fn lemma_count_pkg_env_prefix(pkgs: Seq<(Seq<char>, PackageView)>, k: int)
    requires
        0 <= k <= pkgs.len(),
    ensures
        count_pkg_env_spec(pkgs.subrange(0, k)) <= count_pkg_env_spec(pkgs),
    decreases pkgs.len() - k,
{
    if k < pkgs.len() {
        lemma_count_pkg_env_prefix(pkgs, k + 1);
        let cur = pkgs.subrange(0, k + 1);
        assert(cur.drop_last() =~= pkgs.subrange(0, k));
        assert(count_pkg_env_spec(pkgs.subrange(0, k)) <= count_pkg_env_spec(cur));
    } else {
        assert(pkgs.subrange(0, k) =~= pkgs);
    }
}

/// Writes `num` bracketed, for numbered pickers.
pub fn number_brackets(num: i32) -> (r: String)
    ensures
        r@ == "["@ + int_str(num as int) + "]"@,
{
    let mut s = String::from_str("[");
    s.append(strutil::i32_to_string(num).as_str());
    s.append("]");
    s
}

/// Splits the verbosity flags off an argument list: whether `-v` or
/// `--verbose` occurs, and the arguments without them.
pub open spec fn non_verbose_args(args: Seq<Seq<char>>) -> Seq<Seq<char>>
    decreases args.len(),
{
    if args.len() == 0 {
        Seq::empty()
    } else {
        non_verbose_args(args.drop_last()) + (if args.last() == "-v"@ || args.last()
            == "--verbose"@ {
            Seq::<Seq<char>>::empty()
        } else {
            seq![args.last()]
        })
    }
}

/// Filters the verbosity flags out of `args`, as [`non_verbose_args`]
/// describes; the flag is whether one occurred.
pub fn parse_verbose(args: &Vec<String>) -> (r: (bool, Vec<String>))
    ensures
        r.0 == (args.deep_view().contains("-v"@) || args.deep_view().contains("--verbose"@)),
        r.1.deep_view() == non_verbose_args(args.deep_view()),
{
    let n: usize = args.len();
    let mut verbose: bool = false;
    let mut filtered: Vec<String> = Vec::new();
    let mut i: usize = 0;
    proof {
        assert(non_verbose_args(args.deep_view().subrange(0, 0)) =~= filtered.deep_view());
    }
    while i < n
        invariant
            0 <= i <= n,
            n == args.len(),
            verbose == (exists|j: int|
                0 <= j < i && (args.deep_view()[j] == "-v"@ || args.deep_view()[j]
                    == "--verbose"@)),
            filtered.deep_view() == non_verbose_args(args.deep_view().subrange(0, i as int)),
        decreases n - i,
    {
        proof {
            let cur = args.deep_view().subrange(0, i + 1);
            assert(cur.drop_last() =~= args.deep_view().subrange(0, i as int));
            assert(cur.last() == args.deep_view()[i as int]);
        }
        if strutil::str_eq(args[i].as_str(), "-v") || strutil::str_eq(
            args[i].as_str(),
            "--verbose",
        ) {
            verbose = true;
        } else {
            let ghost before = filtered.deep_view();
            filtered.push(args[i].clone());
            proof {
                assert(filtered.deep_view() =~= before.push(args.deep_view()[i as int]));
            }
        }
        i = i + 1;
    }
    proof {
        assert(args.deep_view().subrange(0, n as int) =~= args.deep_view());
        if verbose {
            let j = choose|j: int|
                0 <= j < n && (args.deep_view()[j] == "-v"@ || args.deep_view()[j]
                    == "--verbose"@);
        } else {
            if args.deep_view().contains("-v"@) {
                let j = choose|j: int|
                    0 <= j < args.deep_view().len() && args.deep_view()[j] == "-v"@;
            }
            if args.deep_view().contains("--verbose"@) {
                let j = choose|j: int|
                    0 <= j < args.deep_view().len() && args.deep_view()[j] == "--verbose"@;
            }
        }
    }
    (verbose, filtered)
}

/// The lines of `s` as the document edit sees them: a final newline ends
/// the last line instead of opening an empty one.
pub open spec fn doc_lines(s: Seq<char>) -> Seq<Seq<char>> {
    if s.len() == 0 {
        Seq::empty()
    } else if s.last() == '\n' {
        lines_spec(s).drop_last()
    } else {
        lines_spec(s)
    }
}

/// The first line that opens a bare-name section, if any, at or after `i`.
pub open spec fn first_pkgs_line(lines: Seq<Seq<char>>, i: int) -> Option<int>
    decreases lines.len() - i,
{
    if i < 0 || i >= lines.len() {
        None
    } else if trim_spec(lines[i]) == "@packages"@ || trim_spec(lines[i]) == "@pkgs"@ {
        Some(i)
    } else {
        first_pkgs_line(lines, i + 1)
    }
}

/// What adding a package name does to the document's lines: the name goes
/// right after the first `@packages` / `@pkgs` line, or a new section is
/// opened at the end, after a separating blank line when the document does
/// not end with one.
pub open spec fn added_lines_spec(lines: Seq<Seq<char>>, name: Seq<char>) -> Seq<Seq<char>> {
    match first_pkgs_line(lines, 0) {
        Some(i) => lines.subrange(0, i + 1) + seq![name] + lines.subrange(
            i + 1,
            lines.len() as int,
        ),
        None => lines + (if lines.len() > 0 && lines.last().len() > 0 {
            seq![Seq::<char>::empty()]
        } else {
            Seq::<Seq<char>>::empty()
        }) + seq!["@packages"@, name],
    }
}

/// Whether some line of the document is exactly the package name.
pub open spec fn has_name_line(lines: Seq<Seq<char>>, name: Seq<char>) -> bool {
    exists|i: int| 0 <= i < lines.len() && trim_spec(#[trigger] lines[i]) == name
}

/// Adds `package_name` to the document text `content`: an error when a
/// line already holds the name, else the edited document, as
/// [`added_lines_spec`] describes, joined back with newlines and one
/// trailing newline.
pub fn add_package_to_content(package_name: &str, content: &str, file_path: &str) -> (r: Result<
    String,
    String,
>)
    ensures
        r is Err <==> has_name_line(doc_lines(content@), package_name@),
        r is Ok ==> r.unwrap()@ == join_spec(
            added_lines_spec(doc_lines(content@), package_name@),
            seq!['\n'],
        ) + seq!['\n'],
{
    proof {
        reveal_strlit("\n");
        assert("\n"@ =~= seq!['\n']);
    }
    let mut lines = strutil::split_lines(content);
    let cn: usize = content.unicode_len();
    if cn == 0 {
        let popped = lines.pop();
        proof {
            assert(lines_spec(content@).len() == 1);
            assert(lines.deep_view() =~= doc_lines(content@));
        }
    } else if content.get_char(cn - 1) == '\n' {
        let popped = lines.pop();
        proof {
            assert(lines.deep_view() =~= lines_spec(content@).drop_last());
        }
    }
    proof {
        if cn == 0 {
        } else if content@.last() == '\n' {
        } else {
            assert(lines.deep_view() == doc_lines(content@));
        }
    }
    let ghost dl = doc_lines(content@);
    let n: usize = lines.len();
    // Reject a document that already names the package.
    let mut i: usize = 0;
    while i < n
        invariant
            0 <= i <= n,
            n == lines.len(),
            lines.deep_view() == dl,
            dl == doc_lines(content@),
            forall|j: int| 0 <= j < i ==> trim_spec(#[trigger] dl[j]) != package_name@,
        decreases n - i,
    {
        let t = strutil::trim(lines[i].as_str());
        if strutil::str_eq(t, package_name) {
            proof {
                assert(trim_spec(dl[i as int]) == package_name@);
            }
            let mut e = String::from_str("Package '");
            e.append(package_name);
            e.append("' already exists in ");
            e.append(file_path);
            return Err(e);
        }
        i = i + 1;
    }
    proof {
        if has_name_line(dl, package_name@) {
            let j = choose|j: int| 0 <= j < dl.len() && trim_spec(#[trigger] dl[j])
                == package_name@;
            assert(false);
        }
    }
    // Find the first bare-name section.
    let mut k: usize = 0;
    while k < n
        invariant
            0 <= k <= n,
            n == lines.len(),
            lines.deep_view() == dl,
            dl == doc_lines(content@),
            "\n"@ == seq!['\n'],
            !has_name_line(dl, package_name@),
            first_pkgs_line(dl, 0) == first_pkgs_line(dl, k as int),
        decreases n - k,
    {
        let t = strutil::trim(lines[k].as_str());
        if strutil::str_eq(t, "@packages") || strutil::str_eq(t, "@pkgs") {
            // Insert right after the section opener.
            let mut out: Vec<String> = Vec::new();
            let mut a: usize = 0;
            while a < k + 1
                invariant
                    0 <= a <= k + 1,
                    k < n == lines.len(),
                    lines.deep_view() == dl,
                    out.deep_view() =~= dl.subrange(0, a as int),
                decreases k + 1 - a,
            {
                let ghost before = out.deep_view();
                out.push(lines[a].clone());
                proof {
                    assert(out.deep_view() =~= before.push(dl[a as int]));
                }
                a = a + 1;
            }
            let ghost mid = out.deep_view();
            out.push(package_name.to_owned());
            proof {
                assert(out.deep_view() =~= mid.push(package_name@));
            }
            let mut b: usize = k + 1;
            while b < n
                invariant
                    k + 1 <= b <= n,
                    n == lines.len(),
                    lines.deep_view() == dl,
                    out.deep_view() =~= dl.subrange(0, k + 1) + seq![package_name@]
                        + dl.subrange(k + 1, b as int),
                decreases n - b,
            {
                let ghost before = out.deep_view();
                out.push(lines[b].clone());
                proof {
                    assert(out.deep_view() =~= before.push(dl[b as int]));
                }
                b = b + 1;
            }
            proof {
                assert(out.deep_view() =~= dl.subrange(0, k + 1) + seq![package_name@]
                    + dl.subrange(k + 1, dl.len() as int));
            }
            let mut s = strutil::join_strings(&out, "\n");
            s.append("\n");
            return Ok(s);
        }
        k = k + 1;
    }
    // No section: open one at the end.
    let mut out: Vec<String> = strutil::clone_strings(&lines);
    proof {
        assert(out.deep_view() =~= dl);
    }
    if lines.len() > 0 && lines[n - 1].as_str().unicode_len() > 0 {
        let ghost before = out.deep_view();
        out.push(String::new());
        proof {
            assert(out.deep_view() =~= before.push(Seq::<char>::empty()));
        }
    }
    let ghost mid = out.deep_view();
    out.push("@packages".to_owned());
    out.push(package_name.to_owned());
    proof {
        assert(out.deep_view() =~= mid + seq!["@packages"@, package_name@]);
        assert(out.deep_view() =~= added_lines_spec(dl, package_name@));
    }
    let mut s = strutil::join_strings(&out, "\n");
    s.append("\n");
    Ok(s)
}

} // verus!
