//! The persisted package-state ledger: `untracked` names never to touch,
//! `hidden` names kept for display filtering, and `managed` names this tool
//! may remove automatically. The ledger is loaded from three files —
//! `managed` and `untracked` as JSON arrays of strings, `hidden` as
//! newline-delimited text — and written back in the same forms.

use vstd::prelude::*;

use crate::strutil;
use crate::strutil::{lines_spec, sort_lex_spec, trim_spec};

verus! {

/// The base-system package names that seed the `untracked` list.
pub open spec fn default_untracked_spec() -> Seq<Seq<char>> {
    seq![
        "linux"@,
        "linux-firmware"@,
        "intel-ucode"@,
        "amd-ucode"@,
        "base"@,
        "base-devel"@,
        "glibc"@,
        "filesystem"@,
        "bash"@,
        "coreutils"@,
        "findutils"@,
        "grep"@,
        "gawk"@,
        "sed"@,
        "less"@,
        "util-linux"@,
        "procps-ng"@,
        "shadow"@,
        "iproute2"@,
        "iputils"@,
        "pacman"@,
        "pacman-contrib"@,
        "gzip"@,
        "xz"@,
        "tar"@,
        "openssl"@,
        "ca-certificates"@,
        "e2fsprogs"@,
    ]
}

/// The default `untracked` seed, as [`default_untracked_spec`] lists it.
pub fn default_untracked_packages() -> (r: Vec<String>)
    ensures
        r.deep_view() == default_untracked_spec(),
{
    let mut v: Vec<String> = Vec::new();
    v.push("linux".to_owned());
    v.push("linux-firmware".to_owned());
    v.push("intel-ucode".to_owned());
    v.push("amd-ucode".to_owned());
    v.push("base".to_owned());
    v.push("base-devel".to_owned());
    v.push("glibc".to_owned());
    v.push("filesystem".to_owned());
    v.push("bash".to_owned());
    v.push("coreutils".to_owned());
    v.push("findutils".to_owned());
    v.push("grep".to_owned());
    v.push("gawk".to_owned());
    v.push("sed".to_owned());
    v.push("less".to_owned());
    v.push("util-linux".to_owned());
    v.push("procps-ng".to_owned());
    v.push("shadow".to_owned());
    v.push("iproute2".to_owned());
    v.push("iputils".to_owned());
    v.push("pacman".to_owned());
    v.push("pacman-contrib".to_owned());
    v.push("gzip".to_owned());
    v.push("xz".to_owned());
    v.push("tar".to_owned());
    v.push("openssl".to_owned());
    v.push("ca-certificates".to_owned());
    v.push("e2fsprogs".to_owned());
    proof {
        assert(v.deep_view() =~= default_untracked_spec());
    }
    v
}

/// `s` with every occurrence of `p` removed, order kept.
pub open spec fn remove_name_spec(s: Seq<Seq<char>>, p: Seq<char>) -> Seq<Seq<char>>
    decreases s.len(),
{
    if s.len() == 0 {
        Seq::empty()
    } else {
        remove_name_spec(s.drop_last(), p) + (if s.last() == p {
            Seq::<Seq<char>>::empty()
        } else {
            seq![s.last()]
        })
    }
}

/// `s` with `p` inserted and the whole list sorted, when `p` is new; `s`
/// itself when `p` is already present.
pub open spec fn add_name_spec(s: Seq<Seq<char>>, p: Seq<char>) -> Seq<Seq<char>> {
    if s.contains(p) {
        s
    } else {
        sort_lex_spec(s.push(p))
    }
}

/// Removes every string equal to `p` from `v`, as [`remove_name_spec`]
/// describes.
fn remove_name(v: &Vec<String>, p: &str) -> (r: Vec<String>)
    ensures
        r.deep_view() == remove_name_spec(v.deep_view(), p@),
{
    let n: usize = v.len();
    let mut out: Vec<String> = Vec::new();
    let mut i: usize = 0;
    proof {
        assert(remove_name_spec(v.deep_view().subrange(0, 0), p@) =~= out.deep_view());
    }
    while i < n
        invariant
            0 <= i <= n,
            n == v.len(),
            out.deep_view() == remove_name_spec(v.deep_view().subrange(0, i as int), p@),
        decreases n - i,
    {
        let ghost pre = v.deep_view().subrange(0, i as int);
        proof {
            let cur = v.deep_view().subrange(0, i + 1);
            assert(cur.drop_last() =~= pre);
            assert(cur.last() == v.deep_view()[i as int]);
        }
        if !strutil::str_eq(v[i].as_str(), p) {
            let ghost before = out.deep_view();
            out.push(v[i].clone());
            proof {
                assert(out.deep_view() =~= before.push(v.deep_view()[i as int]));
                assert(out.deep_view() =~= remove_name_spec(
                    v.deep_view().subrange(0, i + 1),
                    p@,
                ));
            }
        } else {
            proof {
                assert(out.deep_view() =~= remove_name_spec(
                    v.deep_view().subrange(0, i + 1),
                    p@,
                ));
            }
        }
        i = i + 1;
    }
    proof {
        assert(v.deep_view().subrange(0, n as int) =~= v.deep_view());
    }
    out
}

/// Adds `p` to `v` sorted, as [`add_name_spec`] describes.
fn add_name(v: &mut Vec<String>, p: String)
    ensures
        final(v).deep_view() == add_name_spec(old(v).deep_view(), p@),
{
    if !strutil::contains_string(v, p.as_str()) {
        let ghost before = v.deep_view();
        v.push(p);
        proof {
            assert(v.deep_view() =~= before.push(p@));
        }
        let sorted = strutil::sort_strings(v);
        *v = sorted;
    }
}

/// The persisted ledger: three independent name lists.
#[derive(Debug, Clone)]
pub struct PackageState {
    pub untracked: Vec<String>,
    pub hidden: Vec<String>,
    pub managed: Vec<String>,
}

impl PackageState {
    /// A ledger with the default `untracked` seed and nothing managed or
    /// hidden, as a first run finds it.
    pub fn initial() -> (r: PackageState)
        ensures
            r.untracked.deep_view() == default_untracked_spec(),
            r.hidden.deep_view() == Seq::<Seq<char>>::empty(),
            r.managed.deep_view() == Seq::<Seq<char>>::empty(),
    {
        let r = PackageState {
            untracked: default_untracked_packages(),
            hidden: Vec::new(),
            managed: Vec::new(),
        };
        proof {
            assert(r.hidden.deep_view() =~= Seq::<Seq<char>>::empty());
            assert(r.managed.deep_view() =~= Seq::<Seq<char>>::empty());
        }
        r
    }

    /// Whether `package` is on the `untracked` list.
    pub fn is_untracked(&self, package: &str) -> (r: bool)
        ensures
            r == self.untracked.deep_view().contains(package@),
    {
        strutil::contains_string(&self.untracked, package)
    }

    /// Whether `package` is on the `hidden` list.
    pub fn is_hidden(&self, package: &str) -> (r: bool)
        ensures
            r == self.hidden.deep_view().contains(package@),
    {
        strutil::contains_string(&self.hidden, package)
    }

    /// Whether `package` is on the `managed` list.
    pub fn is_managed(&self, package: &str) -> (r: bool)
        ensures
            r == self.managed.deep_view().contains(package@),
    {
        strutil::contains_string(&self.managed, package)
    }

    /// Adds `package` to the `untracked` list, kept sorted, as
    /// [`add_name_spec`] describes.
    pub fn add_untracked(&mut self, package: String)
        ensures
            final(self).untracked.deep_view() == add_name_spec(
                old(self).untracked.deep_view(),
                package@,
            ),
            final(self).hidden == old(self).hidden,
            final(self).managed == old(self).managed,
    {
        add_name(&mut self.untracked, package);
    }

    /// Removes `package` from the `untracked` list, as [`remove_name_spec`]
    /// describes.
    pub fn remove_untracked(&mut self, package: &str)
        ensures
            final(self).untracked.deep_view() == remove_name_spec(
                old(self).untracked.deep_view(),
                package@,
            ),
            final(self).hidden == old(self).hidden,
            final(self).managed == old(self).managed,
    {
        self.untracked = remove_name(&self.untracked, package);
    }

    /// Adds `package` to the `hidden` list, kept sorted, as
    /// [`add_name_spec`] describes.
    pub fn add_hidden(&mut self, package: String)
        ensures
            final(self).hidden.deep_view() == add_name_spec(
                old(self).hidden.deep_view(),
                package@,
            ),
            final(self).untracked == old(self).untracked,
            final(self).managed == old(self).managed,
    {
        add_name(&mut self.hidden, package);
    }

    /// Removes `package` from the `hidden` list, as [`remove_name_spec`]
    /// describes.
    pub fn remove_hidden(&mut self, package: &str)
        ensures
            final(self).hidden.deep_view() == remove_name_spec(
                old(self).hidden.deep_view(),
                package@,
            ),
            final(self).untracked == old(self).untracked,
            final(self).managed == old(self).managed,
    {
        self.hidden = remove_name(&self.hidden, package);
    }

    /// Adds `package` to the `managed` list, kept sorted, as
    /// [`add_name_spec`] describes.
    pub fn add_managed(&mut self, package: String)
        ensures
            final(self).managed.deep_view() == add_name_spec(
                old(self).managed.deep_view(),
                package@,
            ),
            final(self).untracked == old(self).untracked,
            final(self).hidden == old(self).hidden,
    {
        add_name(&mut self.managed, package);
    }

    /// Removes `package` from the `managed` list, as [`remove_name_spec`]
    /// describes.
    pub fn remove_managed(&mut self, package: &str)
        ensures
            final(self).managed.deep_view() == remove_name_spec(
                old(self).managed.deep_view(),
                package@,
            ),
            final(self).untracked == old(self).untracked,
            final(self).hidden == old(self).hidden,
    {
        self.managed = remove_name(&self.managed, package);
    }
}

/// The names on a newline-delimited list: each line trimmed, empty lines
/// dropped.
pub open spec fn hidden_list_spec(text: Seq<char>) -> Seq<Seq<char>>
    decreases lines_spec(text).len(),
{
    hidden_lines_spec(lines_spec(text))
}

/// The kept lines of a newline-delimited list.
pub open spec fn hidden_lines_spec(lines: Seq<Seq<char>>) -> Seq<Seq<char>>
    decreases lines.len(),
{
    if lines.len() == 0 {
        Seq::empty()
    } else {
        hidden_lines_spec(lines.drop_last()) + (if trim_spec(lines.last()).len() == 0 {
            Seq::<Seq<char>>::empty()
        } else {
            seq![trim_spec(lines.last())]
        })
    }
}

/// Parses a newline-delimited name list, as [`hidden_list_spec`] describes.
pub fn parse_hidden_list(text: &str) -> (r: Vec<String>)
    ensures
        r.deep_view() == hidden_list_spec(text@),
{
    let lines = strutil::split_lines(text);
    let n: usize = lines.len();
    let mut out: Vec<String> = Vec::new();
    let mut i: usize = 0;
    proof {
        assert(hidden_lines_spec(lines.deep_view().subrange(0, 0)) =~= out.deep_view());
    }
    while i < n
        invariant
            0 <= i <= n,
            n == lines.len(),
            out.deep_view() == hidden_lines_spec(lines.deep_view().subrange(0, i as int)),
        decreases n - i,
    {
        proof {
            let cur = lines.deep_view().subrange(0, i + 1);
            assert(cur.drop_last() =~= lines.deep_view().subrange(0, i as int));
            assert(cur.last() == lines.deep_view()[i as int]);
        }
        let t = strutil::trim(lines[i].as_str());
        if !t.is_empty() {
            let ghost before = out.deep_view();
            out.push(t.to_owned());
            proof {
                assert(out.deep_view() =~= before.push(trim_spec(lines.deep_view()[i as int])));
            }
        }
        i = i + 1;
    }
    proof {
        assert(lines.deep_view().subrange(0, n as int) =~= lines.deep_view());
    }
    out
}

/// The value that parsing `text` as a JSON array of strings yields, when it
/// yields one: the result depends on the text alone.
pub uninterp spec fn json_string_list_of(text: Seq<char>) -> Option<Seq<Seq<char>>>;

/// Relies on `serde_json::from_str::<Vec<String>>`: reads a JSON array of
/// strings, deterministically in the text.
#[verifier::external_body]
fn parse_string_list_json(text: &str) -> (r: Result<Vec<String>, String>)
    ensures
        r is Ok <==> json_string_list_of(text@) is Some,
        r is Ok ==> r.unwrap().deep_view() == json_string_list_of(text@)->Some_0,
{
    serde_json::from_str::<Vec<String>>(text).map_err(|e| e.to_string())
}

/// The pretty-printed JSON form of a list of strings: the result depends on
/// the names alone.
pub uninterp spec fn json_pretty_of(names: Seq<Seq<char>>) -> Seq<char>;

/// Relies on `serde_json::to_string_pretty`: writes the list as a
/// pretty-printed JSON array, deterministically in the names. On a list
/// of strings it cannot fail — its only error sources are failing
/// `Serialize` impls and non-string map keys, and the writer is an
/// in-memory buffer — and parsing its output yields the list back.
#[verifier::external_body]
fn render_string_list_json(names: &Vec<String>) -> (r: Result<String, String>)
    ensures
        r is Ok,
        r.unwrap()@ == json_pretty_of(names.deep_view()),
        json_string_list_of(r.unwrap()@) == Some(names.deep_view()),
{
    serde_json::to_string_pretty(names).map_err(|e| e.to_string())
}

impl PackageState {
    /// Builds the ledger from the texts of its three files; `None` stands
    /// for a file that does not exist. A missing `untracked` file yields the
    /// default seed, a missing `managed` file an empty list, a missing
    /// `hidden` file an empty list. A text that is not a JSON array of
    /// strings fails.
    pub fn from_file_texts(
        untracked_text: Option<&String>,
        hidden_text: Option<&String>,
        managed_text: Option<&String>,
    ) -> (r: Result<PackageState, String>)
        ensures
            r is Ok <==> ((match untracked_text {
                Some(t) => json_string_list_of(t@) is Some,
                None => true,
            }) && (match managed_text {
                Some(t) => json_string_list_of(t@) is Some,
                None => true,
            })),
            r is Ok ==> r.unwrap().untracked.deep_view() == (match untracked_text {
                Some(t) => json_string_list_of(t@)->Some_0,
                None => default_untracked_spec(),
            }),
            r is Ok ==> r.unwrap().hidden.deep_view() == (match hidden_text {
                Some(t) => hidden_list_spec(t@),
                None => Seq::<Seq<char>>::empty(),
            }),
            r is Ok ==> r.unwrap().managed.deep_view() == (match managed_text {
                Some(t) => json_string_list_of(t@)->Some_0,
                None => Seq::<Seq<char>>::empty(),
            }),
    {
        let untracked: Vec<String> = match untracked_text {
            Some(t) => match parse_string_list_json(t.as_str()) {
                Ok(v) => v,
                Err(e) => {
                    return Err(e);
                },
            },
            None => default_untracked_packages(),
        };
        let hidden: Vec<String> = match hidden_text {
            Some(t) => parse_hidden_list(t.as_str()),
            None => Vec::new(),
        };
        let managed: Vec<String> = match managed_text {
            Some(t) => match parse_string_list_json(t.as_str()) {
                Ok(v) => v,
                Err(e) => {
                    return Err(e);
                },
            },
            None => Vec::new(),
        };
        proof {
            if hidden_text is None {
                assert(hidden.deep_view() =~= Seq::<Seq<char>>::empty());
            }
            if managed_text is None {
                assert(managed.deep_view() =~= Seq::<Seq<char>>::empty());
            }
        }
        Ok(PackageState { untracked, hidden, managed })
    }

    /// The texts to persist: the `untracked` JSON, the `hidden`
    /// newline-delimited text and the `managed` JSON, in this order.
    /// Rendering always succeeds, and parsing the two JSON texts back
    /// yields the lists unchanged.
    pub fn to_file_texts(&self) -> (r: Result<(String, String, String), String>)
        ensures
            r is Ok,
            ({
                let t = r.unwrap();
                &&& t.0@ == json_pretty_of(self.untracked.deep_view())
                &&& t.1@ == render_hidden_spec(self.hidden.deep_view())
                &&& t.2@ == json_pretty_of(self.managed.deep_view())
                &&& json_string_list_of(t.0@) == Some(self.untracked.deep_view())
                &&& json_string_list_of(t.2@) == Some(self.managed.deep_view())
            }),
    {
        let untracked_json = match render_string_list_json(&self.untracked) {
            Ok(s) => s,
            Err(e) => {
                return Err(e);
            },
        };
        let managed_json = match render_string_list_json(&self.managed) {
            Ok(s) => s,
            Err(e) => {
                return Err(e);
            },
        };
        let hidden_txt = render_hidden_list(&self.hidden);
        Ok((untracked_json, hidden_txt, managed_json))
    }
}

/// The newline-delimited form of a name list: the names joined with
/// newlines, with one trailing newline.
pub open spec fn render_hidden_spec(names: Seq<Seq<char>>) -> Seq<char> {
    strutil::join_spec(names, seq!['\n']) + seq!['\n']
}

/// Writes a name list newline-delimited, as [`render_hidden_spec`]
/// describes.
pub fn render_hidden_list(names: &Vec<String>) -> (r: String)
    ensures
        r@ == render_hidden_spec(names.deep_view()),
{
    proof {
        reveal_strlit("\n");
        assert("\n"@ =~= seq!['\n']);
    }
    let mut s = strutil::join_strings(names, "\n");
    s.append("\n");
    s
}

} // verus!
