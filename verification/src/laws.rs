//! The library's cross-cutting guarantees, each proved over the spec
//! functions its functions' contracts use.

use vstd::prelude::*;

use crate::chain::{lemma_merge_assoc_get, merge_spec};
use crate::config::{assoc_get, assoc_unique, ConfigView, PackageView};
use crate::dotfiles::{sha256_hex_of, spec_classify, DotfileStatus, PathView};
use crate::planner::{has_install, has_remove, is_install, is_remove, spec_installed,
    PackageAction};

verus! {

/// Idempotence of the planner: when every desired package already counts
/// as installed and every managed installed package is still desired, any
/// plan that meets the planner's contract is empty. Running `apply` twice
/// with no outside change puts the machine in exactly this state, so the
/// second run plans nothing.
pub proof fn lemma_plan_idempotent(
    packages: Seq<(Seq<char>, PackageView)>,
    installed: Seq<Seq<char>>,
    groups: Seq<(Seq<char>, Seq<Seq<char>>)>,
    managed: Seq<Seq<char>>,
    r: Seq<PackageAction>,
)
    requires
        forall|p: Seq<char>|
            assoc_get(packages, p) is Some ==> spec_installed(p, installed, groups),
        forall|p: Seq<char>|
            installed.contains(p) && managed.contains(p) ==> assoc_get(packages, p) is Some,
        forall|p: Seq<char>|
            #[trigger] has_install(r, p) == (assoc_get(packages, p) is Some && !spec_installed(
                p,
                installed,
                groups,
            )),
        forall|p: Seq<char>|
            #[trigger] has_remove(r, p) == (installed.contains(p) && assoc_get(
                packages,
                p,
            ) is None && managed.contains(p)),
    ensures
        r == Seq::<PackageAction>::empty(),
{
    if r.len() > 0 {
        match r[0] {
            PackageAction::Install { name } => {
                assert(is_install(r[0], name@));
                assert(has_install(r, name@));
            },
            PackageAction::Remove { name } => {
                assert(is_remove(r[0], name@));
                assert(has_remove(r, name@));
            },
        }
        assert(false);
    }
    assert(r =~= Seq::<PackageAction>::empty());
}

/// Precedence of the document chain, main over host over groups: a
/// package the main document declares keeps main's entry, directives and
/// all — a bare re-declaration in main erases a group document's
/// directives; a name main does not declare but the host document does
/// keeps the host's entry; any other name keeps what the group traversal
/// accumulated. Replacement is of the entire entry: no field survives
/// from a lower-precedence declaration.
pub proof fn lemma_package_precedence(
    main: Option<Seq<char>>,
    host: Option<Seq<char>>,
    docs: Seq<(Seq<char>, Seq<char>)>,
    p: Seq<char>,
)
    ensures
        ({
            let mc = crate::chain::parsed_or_empty(main);
            let hc = crate::chain::parsed_or_empty(host);
            let grouped = crate::chain::group_merged(main, host, docs);
            assoc_get(crate::chain::spec_resolve_chain(main, host, docs).packages, p) == (
            if assoc_get(mc.packages, p) is Some {
                assoc_get(mc.packages, p)
            } else if assoc_get(hc.packages, p) is Some {
                assoc_get(hc.packages, p)
            } else {
                assoc_get(grouped.packages, p)
            })
        }),
{
    let mc = crate::chain::parsed_or_empty(main);
    let hc = crate::chain::parsed_or_empty(host);
    let grouped = crate::chain::group_merged(main, host, docs);
    if main is Some {
        crate::parser::lemma_spec_parse_wf(main->Some_0);
    }
    if host is Some {
        crate::parser::lemma_spec_parse_wf(host->Some_0);
    }
    lemma_merge_assoc_get(
        merge_spec(grouped, hc).packages,
        mc.packages,
        p,
    );
    lemma_merge_assoc_get(grouped.packages, hc.packages, p);
}

/// Dotfile classification, the digest-independent clauses: a source file
/// whose bytes the destination file carries is `UpToDate` whatever the
/// modification times; a missing destination is `Create`; a source
/// mapped onto a destination of the other kind is `Conflict`; a missing
/// source is `Conflict`. Together with the planner's idempotence this is
/// the second half of idempotence: after a successful copy the
/// destination carries the source bytes, so the second run classifies the
/// mapping `UpToDate`.
pub proof fn lemma_classification(src: PathView, dst: PathView)
    ensures
        (src matches PathView::File { content: sc, .. } && dst matches PathView::File {
            content: dc,
            ..
        } && sc == dc) ==> spec_classify(src, dst).0 == DotfileStatus::UpToDate,
        (src matches PathView::File { content: sc, .. } && dst matches PathView::File {
            content: dc,
            ..
        } && sc.len() != dc.len()) ==> spec_classify(src, dst).0 == DotfileStatus::Update,
        !(src is Missing) && dst is Missing ==> spec_classify(src, dst).0
            == DotfileStatus::Create,
        src is File && dst is Dir ==> spec_classify(src, dst).0 == DotfileStatus::Conflict,
        src is Dir && dst is File ==> spec_classify(src, dst).0 == DotfileStatus::Conflict,
        src is Missing ==> spec_classify(src, dst).0 == DotfileStatus::Conflict,
{
}

/// A destination directory that carries, under each source file's relative
/// path, exactly that file's bytes, classifies `UpToDate`.
pub proof fn lemma_directory_in_sync(
    smt: Seq<(Seq<char>, Seq<u8>)>,
    dmt: Seq<(Seq<char>, Seq<u8>)>,
)
    requires
        forall|i: int|
            0 <= i < smt.len() ==> assoc_get(dmt, #[trigger] smt[i].0) == Some(smt[i].1),
    ensures
        spec_classify(PathView::Dir { files: smt }, PathView::Dir { files: dmt }).0
            == DotfileStatus::UpToDate,
{
    assert forall|i: int|
        0 <= i < smt.len() implies (match assoc_get(dmt, #[trigger] smt[i].0) {
        Some(c2) => sha256_hex_of(smt[i].1) == sha256_hex_of(c2),
        None => false,
    }) by {
        assert(assoc_get(dmt, smt[i].0) == Some(smt[i].1));
    }
}

} // verus!
