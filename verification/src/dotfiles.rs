//! The dotfile synchronization engine.
//!
//! A mapping names a source under the dotfiles root and a destination in
//! the home directory. The engine works on observed path states — a path
//! is missing, a file with its bytes and modification time, or a directory
//! with its files — and classifies each mapping as `Create`, `Update`,
//! `UpToDate` or `Conflict` by comparing sizes, then modification times,
//! then content digests, as [`spec_classify`] describes. Reading and
//! copying the paths themselves is the caller's part.

use vstd::prelude::*;

use sha2::Digest;

use crate::config::{assoc_get, Config, PackageView};
use crate::parser::opt_view;
use crate::strutil;
use crate::strutil::{split_once_spec, starts_with_spec, trim_spec};

verus! {

/// One declared source → destination pair.
#[derive(Debug, Clone)]
pub struct DotfileMapping {
    pub source: String,
    pub destination: String,
}

impl View for DotfileMapping {
    type V = (Seq<char>, Seq<char>);

    open spec fn view(&self) -> (Seq<char>, Seq<char>) {
        (self.source@, self.destination@)
    }
}

/// What one mapping needs: created, updated, already in sync, in conflict,
/// or skipped.
#[derive(Debug, Clone, Copy, PartialEq, Eq, Structural)]
pub enum DotfileStatus {
    Create,
    Update,
    Conflict,
    Skip,
    UpToDate,
}

/// The classification of one mapping, with the reason where one helps.
#[derive(Debug, Clone)]
pub struct DotfileAction {
    pub source: String,
    pub destination: String,
    pub status: DotfileStatus,
    pub reason: Option<String>,
}

/// One file of an observed directory: its path relative to the directory,
/// and its bytes.
#[derive(Debug, Clone)]
pub struct DirFile {
    pub rel: String,
    pub content: Vec<u8>,
}

impl View for DirFile {
    type V = (Seq<char>, Seq<u8>);

    open spec fn view(&self) -> (Seq<char>, Seq<u8>) {
        (self.rel@, self.content@)
    }
}

/// What one path looks like on disk.
#[derive(Debug, Clone)]
pub enum PathState {
    Missing,
    File { mtime: u64, content: Vec<u8> },
    Dir { files: Vec<DirFile> },
}

/// The mathematical content of a [`PathState`].
pub ghost enum PathView {
    Missing,
    File { mtime: u64, content: Seq<u8> },
    Dir { files: Seq<(Seq<char>, Seq<u8>)> },
}

impl View for PathState {
    type V = PathView;

    open spec fn view(&self) -> PathView {
        match self {
            PathState::Missing => PathView::Missing,
            PathState::File { mtime, content } => PathView::File {
                mtime: *mtime,
                content: content@,
            },
            PathState::Dir { files } => PathView::Dir {
                files: files@.map_values(|f: DirFile| f@),
            },
        }
    }
}

/// One mapping together with the observed states of its two paths.
#[derive(Debug, Clone)]
pub struct MappingFacts {
    pub source: String,
    pub destination: String,
    pub source_state: PathState,
    pub dest_state: PathState,
}

/// The SHA-256 digest of the bytes, written as lowercase hex: the result
/// depends on the bytes alone.
pub uninterp spec fn sha256_hex_of(data: Seq<u8>) -> Seq<char>;

/// Relies on `sha2::Sha256`: computes the SHA-256 digest of the bytes,
/// 32 bytes written as 64 hex characters, deterministically in the bytes.
#[verifier::external_body]
pub fn sha256_hex(data: &[u8]) -> (r: String)
    ensures
        r@ == sha256_hex_of(data@),
        r@.len() == 64,
{
    let digest = sha2::Sha256::digest(data);
    let mut out = String::new();
    for b in digest.iter() {
        out.push_str(&format!("{:02x}", b));
    }
    out
}

/// Every file under the source directory has a destination file of the
/// same relative path whose digest matches.
pub open spec fn dirs_in_sync_spec(
    src_files: Seq<(Seq<char>, Seq<u8>)>,
    dst_files: Seq<(Seq<char>, Seq<u8>)>,
) -> bool {
    forall|i: int|
        0 <= i < src_files.len() ==> (match assoc_get(dst_files, #[trigger] src_files[i].0) {
            Some(c2) => sha256_hex_of(src_files[i].1) == sha256_hex_of(c2),
            None => false,
        })
}

/// The status and reason of one mapping, from the observed states:
/// a missing source is a conflict; a missing destination is created; a
/// file-versus-directory mismatch is a conflict; two files compare by
/// size, then by modification time, then by digest; two directories
/// compare file by file.
pub open spec fn spec_classify(src: PathView, dst: PathView) -> (DotfileStatus, Option<Seq<char>>) {
    match src {
        PathView::Missing => (DotfileStatus::Conflict, Some("source file not found"@)),
        PathView::File { mtime: smt, content: sc } => match dst {
            PathView::Missing => (DotfileStatus::Create, None),
            PathView::Dir { .. } => (
                DotfileStatus::Conflict,
                Some("destination is directory, source is file"@),
            ),
            PathView::File { mtime: dmt, content: dc } => {
                if sc.len() != dc.len() {
                    (DotfileStatus::Update, None)
                } else if smt == dmt {
                    (DotfileStatus::UpToDate, Some("content matches"@))
                } else if sha256_hex_of(sc) == sha256_hex_of(dc) {
                    (DotfileStatus::UpToDate, Some("content matches"@))
                } else {
                    (DotfileStatus::Update, None)
                }
            },
        },
        PathView::Dir { files: sf } => match dst {
            PathView::Missing => (DotfileStatus::Create, None),
            PathView::File { .. } => (
                DotfileStatus::Conflict,
                Some("destination is file, source is directory"@),
            ),
            PathView::Dir { files: df } => {
                if dirs_in_sync_spec(sf, df) {
                    (DotfileStatus::UpToDate, Some("content matches"@))
                } else {
                    (DotfileStatus::Update, None)
                }
            },
        },
    }
}

/// The bytes of the destination file at `rel`, if any.
fn find_dir_file<'a>(files: &'a Vec<DirFile>, rel: &str) -> (r: Option<&'a Vec<u8>>)
    ensures
        match r {
            Some(c) => assoc_get(files@.map_values(|f: DirFile| f@), rel@) == Some(c@),
            None => assoc_get(files@.map_values(|f: DirFile| f@), rel@) is None,
        },
{
    let ghost fv = files@.map_values(|f: DirFile| f@);
    let n: usize = files.len();
    let mut i: usize = 0;
    proof {
        assert(fv.skip(0) =~= fv);
    }
    while i < n
        invariant
            0 <= i <= n,
            n == files.len(),
            fv == files@.map_values(|f: DirFile| f@),
            assoc_get(fv, rel@) == assoc_get(fv.skip(i as int), rel@),
        decreases n - i,
    {
        proof {
            assert(fv.skip(i as int)[0] == fv[i as int]);
            assert(fv.skip(i as int).drop_first() =~= fv.skip(i + 1));
        }
        if strutil::str_eq(files[i].rel.as_str(), rel) {
            return Some(&files[i].content);
        }
        i = i + 1;
    }
    None
}

/// Decides [`dirs_in_sync_spec`] on two observed directories.
pub fn dirs_in_sync(src_files: &Vec<DirFile>, dst_files: &Vec<DirFile>) -> (r: bool)
    ensures
        r == dirs_in_sync_spec(
            src_files@.map_values(|f: DirFile| f@),
            dst_files@.map_values(|f: DirFile| f@),
        ),
{
    let ghost sv = src_files@.map_values(|f: DirFile| f@);
    let ghost dv = dst_files@.map_values(|f: DirFile| f@);
    let n: usize = src_files.len();
    let mut i: usize = 0;
    while i < n
        invariant
            0 <= i <= n,
            n == src_files.len(),
            sv == src_files@.map_values(|f: DirFile| f@),
            dv == dst_files@.map_values(|f: DirFile| f@),
            forall|j: int|
                0 <= j < i ==> (match assoc_get(dv, #[trigger] sv[j].0) {
                    Some(c2) => sha256_hex_of(sv[j].1) == sha256_hex_of(c2),
                    None => false,
                }),
        decreases n - i,
    {
        proof {
            assert(sv[i as int] == src_files@[i as int]@);
        }
        match find_dir_file(dst_files, src_files[i].rel.as_str()) {
            Some(dst_content) => {
                let sh = sha256_hex(src_files[i].content.as_slice());
                let dh = sha256_hex(dst_content.as_slice());
                if !strutil::str_eq(sh.as_str(), dh.as_str()) {
                    proof {
                        assert(assoc_get(dv, sv[i as int].0) == Some(dst_content@));
                        assert(sha256_hex_of(sv[i as int].1) != sha256_hex_of(dst_content@));
                        assert(!(match assoc_get(dv, sv[i as int].0) {
                            Some(c2) => sha256_hex_of(sv[i as int].1) == sha256_hex_of(c2),
                            None => false,
                        }));
                    }
                    return false;
                }
            },
            None => {
                proof {
                    assert(assoc_get(dv, sv[i as int].0) is None);
                    assert(!(match assoc_get(dv, sv[i as int].0) {
                        Some(c2) => sha256_hex_of(sv[i as int].1) == sha256_hex_of(c2),
                        None => false,
                    }));
                }
                return false;
            },
        }
        i = i + 1;
    }
    true
}

/// Classifies one mapping, as [`spec_classify`] describes.
pub fn classify_mapping(src: &PathState, dst: &PathState) -> (r: (
    DotfileStatus,
    Option<String>,
))
    ensures
        (r.0, opt_view(r.1)) == spec_classify(src@, dst@),
{
    match src {
        PathState::Missing => (
            DotfileStatus::Conflict,
            Some("source file not found".to_owned()),
        ),
        PathState::File { mtime: smt, content: sc } => match dst {
            PathState::Missing => (DotfileStatus::Create, None),
            PathState::Dir { .. } => (
                DotfileStatus::Conflict,
                Some("destination is directory, source is file".to_owned()),
            ),
            PathState::File { mtime: dmt, content: dc } => {
                if sc.len() != dc.len() {
                    (DotfileStatus::Update, None)
                } else if *smt == *dmt {
                    (DotfileStatus::UpToDate, Some("content matches".to_owned()))
                } else {
                    let sh = sha256_hex(sc.as_slice());
                    let dh = sha256_hex(dc.as_slice());
                    if strutil::str_eq(sh.as_str(), dh.as_str()) {
                        (DotfileStatus::UpToDate, Some("content matches".to_owned()))
                    } else {
                        (DotfileStatus::Update, None)
                    }
                }
            },
        },
        PathState::Dir { files: sf } => match dst {
            PathState::Missing => (DotfileStatus::Create, None),
            PathState::File { .. } => (
                DotfileStatus::Conflict,
                Some("destination is file, source is directory".to_owned()),
            ),
            PathState::Dir { files: df } => {
                if dirs_in_sync(sf, df) {
                    (DotfileStatus::UpToDate, Some("content matches".to_owned()))
                } else {
                    (DotfileStatus::Update, None)
                }
            },
        },
    }
}

/// The action [`analyze_dotfiles`] yields for one observed mapping.
pub open spec fn action_for(m: MappingFacts, a: DotfileAction) -> bool {
    let c = spec_classify(m.source_state@, m.dest_state@);
    a.source@ == m.source@ && a.destination@ == m.destination@ && a.status == c.0 && opt_view(
        a.reason,
    ) == c.1
}

/// Classifies every observed mapping, in order, as [`spec_classify`]
/// describes.
pub fn analyze_dotfiles(items: &Vec<MappingFacts>) -> (r: Vec<DotfileAction>)
    ensures
        r@.len() == items@.len(),
        forall|i: int| 0 <= i < items@.len() ==> action_for(#[trigger] items@[i], r@[i]),
{
    let n: usize = items.len();
    let mut out: Vec<DotfileAction> = Vec::new();
    let mut i: usize = 0;
    while i < n
        invariant
            0 <= i <= n,
            n == items.len(),
            out@.len() == i,
            forall|j: int| 0 <= j < i ==> action_for(#[trigger] items@[j], out@[j]),
        decreases n - i,
    {
        let item = &items[i];
        let (status, reason) = classify_mapping(&item.source_state, &item.dest_state);
        out.push(DotfileAction {
            source: item.source.clone(),
            destination: item.destination.clone(),
            status,
            reason,
        });
        i = i + 1;
    }
    out
}

/// The status asks for work: a copy, or attention to a conflict.
pub open spec fn spec_actionable(s: DotfileStatus) -> bool {
    s == DotfileStatus::Create || s == DotfileStatus::Update || s == DotfileStatus::Conflict
}

/// Whether any observed mapping would classify as `Create`, `Update` or
/// `Conflict`.
pub fn has_actionable_dotfiles(items: &Vec<MappingFacts>) -> (r: bool)
    ensures
        r == exists|i: int|
            0 <= i < items@.len() && spec_actionable(
                spec_classify(
                    #[trigger] items@[i].source_state@,
                    items@[i].dest_state@,
                ).0,
            ),
{
    let n: usize = items.len();
    let mut i: usize = 0;
    while i < n
        invariant
            0 <= i <= n,
            n == items.len(),
            forall|j: int|
                0 <= j < i ==> !spec_actionable(
                    spec_classify(#[trigger] items@[j].source_state@, items@[j].dest_state@).0,
                ),
        decreases n - i,
    {
        let item = &items[i];
        let (status, _reason) = classify_mapping(&item.source_state, &item.dest_state);
        let actionable = match status {
            DotfileStatus::Create => true,
            DotfileStatus::Update => true,
            DotfileStatus::Conflict => true,
            DotfileStatus::Skip => false,
            DotfileStatus::UpToDate => false,
        };
        if actionable {
            return true;
        }
        i = i + 1;
    }
    false
}

/// Whether the action's mapping is to be copied: it classifies as `Create`
/// or `Update`.
pub fn should_copy(action: &DotfileAction) -> (r: bool)
    ensures
        r == (action.status == DotfileStatus::Create || action.status == DotfileStatus::Update),
{
    match action.status {
        DotfileStatus::Create => true,
        DotfileStatus::Update => true,
        DotfileStatus::Conflict => false,
        DotfileStatus::Skip => false,
        DotfileStatus::UpToDate => false,
    }
}

/// What one action becomes once its copy was attempted: a failed copy
/// downgrades the action to a conflict carrying the error, all else stays.
pub open spec fn spec_after_copy(
    a: DotfileAction,
    failure: Option<Seq<char>>,
) -> (DotfileStatus, Option<Seq<char>>) {
    if (a.status == DotfileStatus::Create || a.status == DotfileStatus::Update)
        && failure is Some {
        (DotfileStatus::Conflict, Some("Copy failed: "@ + failure->Some_0))
    } else {
        (a.status, opt_view(a.reason))
    }
}

/// Records the outcome of one copy on its action, as [`spec_after_copy`]
/// describes. `failure` carries the copy error, or `None` on success.
pub fn record_copy_result(action: &DotfileAction, failure: Option<&String>) -> (r: DotfileAction)
    ensures
        r.source@ == action.source@,
        r.destination@ == action.destination@,
        (r.status, opt_view(r.reason)) == spec_after_copy(
            *action,
            match failure {
                Some(e) => Some(e@),
                None => None,
            },
        ),
{
    let copied = should_copy(action);
    if copied {
        if let Some(err) = failure {
            let mut reason = String::from_str("Copy failed: ");
            reason.append(err.as_str());
            return DotfileAction {
                source: action.source.clone(),
                destination: action.destination.clone(),
                status: DotfileStatus::Conflict,
                reason: Some(reason),
            };
        }
    }
    DotfileAction {
        source: action.source.clone(),
        destination: action.destination.clone(),
        status: action.status,
        reason: match &action.reason {
            Some(s) => Some(s.clone()),
            None => None,
        },
    }
}

/// The position of the last `/` of `s`, if any.
pub open spec fn find_last_slash(s: Seq<char>) -> Option<int>
    decreases s.len(),
{
    if s.len() == 0 {
        None
    } else if s.last() == '/' {
        Some(s.len() - 1)
    } else {
        find_last_slash(s.drop_last())
    }
}

/// `s` without its trailing `/` separators.
pub open spec fn strip_trailing_slashes(s: Seq<char>) -> Seq<char>
    decreases s.len(),
{
    if s.len() > 0 && s.last() == '/' {
        strip_trailing_slashes(s.drop_last())
    } else {
        s
    }
}

/// The final path component of `s`: what follows the last `/` once
/// trailing separators are dropped, or `s` itself when nothing does.
pub open spec fn basename_spec(s: Seq<char>) -> Seq<char> {
    let t = strip_trailing_slashes(s);
    if t.len() == 0 {
        s
    } else {
        match find_last_slash(t) {
            Some(i) => t.subrange(i + 1, t.len() as int),
            None => t,
        }
    }
}

proof fn lemma_strip_trailing_subrange(s: Seq<char>, k: int)
    requires
        0 <= k <= s.len(),
        forall|j: int| k <= j < s.len() ==> s[j] == '/',
        k == 0 || s[k - 1] != '/',
    ensures
        strip_trailing_slashes(s) == s.subrange(0, k),
    decreases s.len() - k,
{
    if k == s.len() {
        assert(s.subrange(0, s.len() as int) =~= s);
    } else {
        let t = s.drop_last();
        assert(t =~= s.subrange(0, s.len() - 1));
        lemma_strip_trailing_subrange(t, k);
        assert(t.subrange(0, k) =~= s.subrange(0, k));
    }
}

proof fn lemma_find_last_slash_at(s: Seq<char>, i: int)
    requires
        0 <= i < s.len(),
        s[i] == '/',
        forall|j: int| i < j < s.len() ==> s[j] != '/',
    ensures
        find_last_slash(s) == Some(i),
    decreases s.len(),
{
    if s.len() > 0 && s.last() != '/' {
        let t = s.drop_last();
        assert(t =~= s.subrange(0, s.len() - 1));
        lemma_find_last_slash_at(t, i);
    }
}

proof fn lemma_find_last_slash_none(s: Seq<char>)
    requires
        forall|j: int| 0 <= j < s.len() ==> s[j] != '/',
    ensures
        find_last_slash(s) is None,
    decreases s.len(),
{
    if s.len() > 0 {
        let t = s.drop_last();
        assert(t =~= s.subrange(0, s.len() - 1));
        lemma_find_last_slash_none(t);
    }
}

/// The final path component of `s`, as [`basename_spec`] describes.
pub fn basename<'a>(s: &'a str) -> (r: &'a str)
    ensures
        r@ == basename_spec(s@),
{
    let n: usize = s.unicode_len();
    let mut end: usize = n;
    while end > 0 && s.get_char(end - 1) == '/'
        invariant
            0 <= end <= n,
            n == s@.len(),
            forall|j: int| end <= j < n ==> s@[j] == '/',
        decreases end,
    {
        end = end - 1;
    }
    proof {
        lemma_strip_trailing_subrange(s@, end as int);
    }
    if end == 0 {
        return s;
    }
    let mut start: usize = end;
    while start > 0 && s.get_char(start - 1) != '/'
        invariant
            0 <= start <= end,
            end <= n == s@.len(),
            forall|j: int| start <= j < end ==> s@[j] != '/',
        decreases start,
    {
        start = start - 1;
    }
    let ghost t = s@.subrange(0, end as int);
    proof {
        if start == 0 {
            assert(forall|j: int| 0 <= j < t.len() ==> t[j] != '/');
            lemma_find_last_slash_none(t);
        } else {
            assert(t[start - 1] == '/');
            assert(forall|j: int| start <= j < t.len() ==> t[j] != '/');
            lemma_find_last_slash_at(t, start - 1);
            assert(t.subrange(start as int, t.len() as int) =~= s@.subrange(
                start as int,
                end as int,
            ));
        }
    }
    s.substring_char(start, end)
}

/// Where a mapping's source lives: an absolute or explicitly relative
/// value stands as it is, anything else under the dotfiles root inside
/// the home directory.
pub open spec fn resolve_source_spec(source: Seq<char>, home: Seq<char>) -> Seq<char> {
    if starts_with_spec(source, "/"@) || starts_with_spec(source, "./"@) || starts_with_spec(
        source,
        "../"@,
    ) {
        source
    } else {
        home + "/.owl/dotfiles/"@ + source
    }
}

/// Resolves a mapping's source against the dotfiles root, as
/// [`resolve_source_spec`] describes.
pub fn resolve_source_path(source: &str, home: &str) -> (r: String)
    ensures
        r@ == resolve_source_spec(source@, home@),
{
    if strutil::starts_with(source, "/") || strutil::starts_with(source, "./")
        || strutil::starts_with(source, "../") {
        source.to_owned()
    } else {
        let mut s = String::from_str(home);
        s.append("/.owl/dotfiles/");
        s.append(source);
        s
    }
}

/// Where a mapping's destination lives: a leading `~` stands for the home
/// directory, anything else stands as it is.
pub open spec fn resolve_destination_spec(dest: Seq<char>, home: Seq<char>) -> Seq<char> {
    if starts_with_spec(dest, "~"@) {
        home + dest.skip(1)
    } else {
        dest
    }
}

/// Resolves a mapping's destination with `~` expansion, as
/// [`resolve_destination_spec`] describes.
pub fn resolve_destination_path(dest: &str, home: &str) -> (r: String)
    ensures
        r@ == resolve_destination_spec(dest@, home@),
{
    if strutil::starts_with(dest, "~") {
        proof {
            reveal_strlit("~");
            assert("~"@.len() == 1);
        }
        let n: usize = dest.unicode_len();
        let mut s = String::from_str(home);
        s.append(dest.substring_char(1, n));
        proof {
            assert(dest@.subrange(1, n as int) =~= dest@.skip(1));
        }
        s
    } else {
        dest.to_owned()
    }
}

/// The mapping one `:config` entry declares: `<src> -> <dst>` names both
/// sides; a bare value is the destination, and the source is its final
/// path component.
pub open spec fn mapping_of_entry(entry: Seq<char>) -> (Seq<char>, Seq<char>) {
    match split_once_spec(entry, " -> "@) {
        Some(p) => (trim_spec(p.0), trim_spec(p.1)),
        None => (basename_spec(trim_spec(entry)), trim_spec(entry)),
    }
}

/// The mappings of one package's `config` entries, in order.
pub open spec fn mappings_of_entries(entries: Seq<Seq<char>>) -> Seq<(Seq<char>, Seq<char>)>
    decreases entries.len(),
{
    if entries.len() == 0 {
        Seq::empty()
    } else {
        mappings_of_entries(entries.drop_last()).push(mapping_of_entry(entries.last()))
    }
}

/// The mappings of all packages, in declaration order.
pub open spec fn mappings_of_packages(
    pkgs: Seq<(Seq<char>, PackageView)>,
) -> Seq<(Seq<char>, Seq<char>)>
    decreases pkgs.len(),
{
    if pkgs.len() == 0 {
        Seq::empty()
    } else {
        mappings_of_packages(pkgs.drop_last()) + mappings_of_entries(pkgs.last().1.config)
    }
}

/// Derives every declared dotfile mapping from the configuration, as
/// [`mappings_of_packages`] describes.
pub fn get_dotfile_mappings(config: &Config) -> (r: Vec<DotfileMapping>)
    ensures
        r@.map_values(|m: DotfileMapping| m@) == mappings_of_packages(config@.packages),
{
    let mut out: Vec<DotfileMapping> = Vec::new();
    let pn: usize = config.packages.entries.len();
    let mut i: usize = 0;
    proof {
        assert(mappings_of_packages(config@.packages.subrange(0, 0)) =~= out@.map_values(
            |m: DotfileMapping| m@,
        ));
    }
    while i < pn
        invariant
            0 <= i <= pn,
            pn == config.packages.entries.len(),
            out@.map_values(|m: DotfileMapping| m@) == mappings_of_packages(
                config@.packages.subrange(0, i as int),
            ),
        decreases pn - i,
    {
        proof {
            let cur = config@.packages.subrange(0, i + 1);
            assert(cur.drop_last() =~= config@.packages.subrange(0, i as int));
            assert(cur.last() == config@.packages[i as int]);
        }
        let entries = &config.packages.entries[i].package.config;
        let en: usize = entries.len();
        let mut j: usize = 0;
        proof {
            assert(mappings_of_entries(entries.deep_view().subrange(0, 0))
                =~= Seq::<(Seq<char>, Seq<char>)>::empty());
        }
        while j < en
            invariant
                0 <= j <= en,
                en == entries.len(),
                i < pn == config.packages.entries.len(),
                entries == config.packages.entries[i as int].package.config,
                out@.map_values(|m: DotfileMapping| m@) == mappings_of_packages(
                    config@.packages.subrange(0, i as int),
                ) + mappings_of_entries(entries.deep_view().subrange(0, j as int)),
            decreases en - j,
        {
            proof {
                let cur = entries.deep_view().subrange(0, j + 1);
                assert(cur.drop_last() =~= entries.deep_view().subrange(0, j as int));
                assert(cur.last() == entries.deep_view()[j as int]);
            }
            let entry = entries[j].as_str();
            let ghost before = out@.map_values(|m: DotfileMapping| m@);
            let m: DotfileMapping = match strutil::split_once(entry, " -> ") {
                Some((src, dst)) => DotfileMapping {
                    source: strutil::trim(src).to_owned(),
                    destination: strutil::trim(dst).to_owned(),
                },
                None => {
                    let dest = strutil::trim(entry);
                    DotfileMapping {
                        source: basename(dest).to_owned(),
                        destination: dest.to_owned(),
                    }
                },
            };
            proof {
                assert(m@ == mapping_of_entry(entries.deep_view()[j as int]));
            }
            out.push(m);
            proof {
                assert(out@.map_values(|q: DotfileMapping| q@) =~= before.push(
                    mapping_of_entry(entries.deep_view()[j as int]),
                ));
            }
            j = j + 1;
        }
        proof {
            assert(entries.deep_view().subrange(0, en as int) =~= entries.deep_view());
            assert(config@.packages[i as int].1.config == entries.deep_view());
        }
        i = i + 1;
    }
    proof {
        assert(config@.packages.subrange(0, pn as int) =~= config@.packages);
    }
    out
}

} // verus!
