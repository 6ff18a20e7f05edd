//! Merging configuration documents and resolving the document chain.
//!
//! Precedence runs main over host over groups: the group documents found
//! by following `@group` references are merged first, the host document
//! over them, and the main document last and highest. A higher-precedence
//! package entry entirely replaces a lower one of the same name,
//! environment keys are rebound the same way, and group lists are unioned
//! without duplicates. Group references are followed transitively with a
//! processed list, so a chain of documents that reference each other — even
//! in a cycle — is traversed once per group name and always terminates.

use vstd::prelude::*;

use crate::config::{
    assoc_get, assoc_keys, assoc_set, assoc_unique, config_wf, lemma_assoc_get_entry,
    lemma_assoc_get_keys, lemma_assoc_set_get, lemma_assoc_set_unique, lemma_set_package_wf,
    Config, ConfigView, Package, PackageView,
};
use crate::parser::spec_parse;
use crate::strutil;

verus! {

/// The entries of `b` bound over `a`, first entry of `b` first: an entry of
/// `b` replaces an entry of `a` with the same key.
pub open spec fn merge_assoc<T>(
    a: Seq<(Seq<char>, T)>,
    b: Seq<(Seq<char>, T)>,
) -> Seq<(Seq<char>, T)>
    decreases b.len(),
{
    if b.len() == 0 {
        a
    } else {
        merge_assoc(assoc_set(a, b[0].0, b[0].1), b.drop_first())
    }
}

/// The names of `h` appended to `g`, skipping names already present.
pub open spec fn merge_groups(g: Seq<Seq<char>>, h: Seq<Seq<char>>) -> Seq<Seq<char>>
    decreases h.len(),
{
    if h.len() == 0 {
        g
    } else {
        merge_groups(if g.contains(h[0]) { g } else { g.push(h[0]) }, h.drop_first())
    }
}

/// No name occurs twice.
pub open spec fn no_dup(s: Seq<Seq<char>>) -> bool {
    forall|i: int, j: int| 0 <= i < j < s.len() ==> s[i] != s[j]
}

/// What merging a whole document over `a` yields.
pub open spec fn merge_spec(a: ConfigView, b: ConfigView) -> ConfigView {
    ConfigView {
        packages: merge_assoc(a.packages, b.packages),
        groups: merge_groups(a.groups, b.groups),
        env_vars: merge_assoc(a.env_vars, b.env_vars),
    }
}

/// After a merge, a key bound in `b` has `b`'s last binding, and any other
/// key keeps its binding from `a`.
pub proof fn lemma_merge_assoc_get<T>(a: Seq<(Seq<char>, T)>, b: Seq<(Seq<char>, T)>, k: Seq<char>)
    requires
        assoc_unique(b),
    ensures
        assoc_get(merge_assoc(a, b), k) == if assoc_get(b, k) is Some {
            assoc_get(b, k)
        } else {
            assoc_get(a, k)
        },
    decreases b.len(),
{
    if b.len() > 0 {
        let a2 = assoc_set(a, b[0].0, b[0].1);
        assert(assoc_unique(b.drop_first()));
        lemma_merge_assoc_get(a2, b.drop_first(), k);
        lemma_assoc_set_get(a, b[0].0, b[0].1, k);
        if b[0].0 == k {
            if assoc_get(b.drop_first(), k) is Some {
                lemma_assoc_get_entry(b.drop_first(), k);
                let j = choose|j: int|
                    0 <= j < b.drop_first().len() && #[trigger] b.drop_first()[j] == (
                        k,
                        assoc_get(b.drop_first(), k)->Some_0,
                    );
                assert(b[j + 1] == b.drop_first()[j]);
                assert(false);
            }
        }
    }
}

/// Merging group lists keeps the accumulated list free of duplicates, and
/// the result holds exactly the names of both sides.
pub proof fn lemma_merge_groups_nodup(g: Seq<Seq<char>>, h: Seq<Seq<char>>)
    requires
        no_dup(g),
    ensures
        no_dup(merge_groups(g, h)),
        forall|x: Seq<char>|
            #[trigger] merge_groups(g, h).contains(x) == (g.contains(x) || h.contains(x)),
    decreases h.len(),
{
    if h.len() > 0 {
        let g2 = if g.contains(h[0]) {
            g
        } else {
            g.push(h[0])
        };
        assert(no_dup(g2)) by {
            if !g.contains(h[0]) {
                assert forall|i: int, j: int| 0 <= i < j < g2.len() implies g2[i] != g2[j] by {
                    if j == g2.len() - 1 {
                        assert(g2[j] == h[0]);
                        assert(g2[i] == g[i]);
                        if g[i] == h[0] {
                            assert(g.contains(h[0]));
                        }
                    }
                }
            }
        }
        lemma_merge_groups_nodup(g2, h.drop_first());
        assert forall|x: Seq<char>|
            #[trigger] merge_groups(g, h).contains(x) == (g.contains(x) || h.contains(x)) by {
            assert(merge_groups(g, h) == merge_groups(g2, h.drop_first()));
            assert(g2.contains(x) == (g.contains(x) || x == h[0])) by {
                if g.contains(h[0]) {
                    if x == h[0] {
                    }
                } else {
                    if g2.contains(x) {
                        let i = choose|i: int| 0 <= i < g2.len() && g2[i] == x;
                        if i < g.len() {
                            assert(g[i] == x);
                        }
                    }
                    if g.contains(x) {
                        let i = choose|i: int| 0 <= i < g.len() && g[i] == x;
                        assert(g2[i] == x);
                    }
                    if x == h[0] {
                        assert(g2[g.len() as int] == x);
                    }
                }
            }
            assert(h.contains(x) == (x == h[0] || h.drop_first().contains(x))) by {
                if h.contains(x) && x != h[0] {
                    let i = choose|i: int| 0 <= i < h.len() && h[i] == x;
                    assert(h.drop_first()[i - 1] == x);
                }
                if h.drop_first().contains(x) {
                    let i = choose|i: int|
                        0 <= i < h.drop_first().len() && h.drop_first()[i] == x;
                    assert(h[i + 1] == x);
                }
            }
        }
    }
}

/// Merging a well-formed document over a well-formed configuration keeps it
/// well formed.
pub proof fn lemma_merge_wf(a: ConfigView, b: ConfigView)
    requires
        config_wf(a),
        config_wf(b),
    ensures
        config_wf(merge_spec(a, b)),
{
    lemma_merge_packages_wf(a.packages, b.packages);
    lemma_merge_env_wf(a.env_vars, b.env_vars);
}

proof fn lemma_merge_packages_wf(
    a: Seq<(Seq<char>, PackageView)>,
    b: Seq<(Seq<char>, PackageView)>,
)
    requires
        assoc_unique(a),
        forall|i: int| 0 <= i < a.len() ==> assoc_unique(#[trigger] a[i].1.env_vars),
        forall|i: int| 0 <= i < b.len() ==> assoc_unique(#[trigger] b[i].1.env_vars),
    ensures
        assoc_unique(merge_assoc(a, b)),
        forall|i: int|
            0 <= i < merge_assoc(a, b).len() ==> assoc_unique(
                #[trigger] merge_assoc(a, b)[i].1.env_vars,
            ),
    decreases b.len(),
{
    if b.len() > 0 {
        let a2 = assoc_set(a, b[0].0, b[0].1);
        lemma_assoc_set_unique(a, b[0].0, b[0].1);
        crate::config::lemma_assoc_set_values(a, b[0].0, b[0].1);
        assert forall|i: int| 0 <= i < a2.len() implies assoc_unique(
            #[trigger] a2[i].1.env_vars,
        ) by {
            if a2[i] == (b[0].0, b[0].1) {
                assert(assoc_unique(b[0].1.env_vars));
            } else {
                let j = choose|j: int| 0 <= j < a.len() && #[trigger] a2[i] == a[j];
                assert(assoc_unique(a[j].1.env_vars));
            }
        }
        assert(forall|i: int|
            0 <= i < b.drop_first().len() ==> assoc_unique(
                #[trigger] b.drop_first()[i].1.env_vars,
            )) by {
            assert(forall|i: int|
                0 <= i < b.drop_first().len() ==> b.drop_first()[i] == b[i + 1]);
        }
        lemma_merge_packages_wf(a2, b.drop_first());
    }
}

proof fn lemma_merge_env_wf(a: Seq<(Seq<char>, Seq<char>)>, b: Seq<(Seq<char>, Seq<char>)>)
    requires
        assoc_unique(a),
    ensures
        assoc_unique(merge_assoc(a, b)),
    decreases b.len(),
{
    if b.len() > 0 {
        lemma_assoc_set_unique(a, b[0].0, b[0].1);
        lemma_merge_env_wf(assoc_set(a, b[0].0, b[0].1), b.drop_first());
    }
}

/// One group document, given by its group name and its text.
pub struct GroupDoc {
    pub name: String,
    pub text: String,
}

impl View for GroupDoc {
    type V = (Seq<char>, Seq<char>);

    open spec fn view(&self) -> (Seq<char>, Seq<char>) {
        (self.name@, self.text@)
    }
}

/// How many of the names are not yet processed, occurrences counted.
pub open spec fn count_unprocessed(keys: Seq<Seq<char>>, processed: Seq<Seq<char>>) -> nat
    decreases keys.len(),
{
    if keys.len() == 0 {
        0
    } else {
        (if processed.contains(keys[0]) {
            0nat
        } else {
            1nat
        }) + count_unprocessed(keys.drop_first(), processed)
    }
}

/// Processing more names never raises the count.
proof fn lemma_count_mono(keys: Seq<Seq<char>>, processed: Seq<Seq<char>>, name: Seq<char>)
    ensures
        count_unprocessed(keys, processed.push(name)) <= count_unprocessed(keys, processed),
    decreases keys.len(),
{
    if keys.len() > 0 {
        lemma_count_mono(keys.drop_first(), processed, name);
        if processed.contains(keys[0]) {
            let i = choose|i: int| 0 <= i < processed.len() && processed[i] == keys[0];
            assert(processed.push(name)[i] == keys[0]);
        }
    }
}

/// Processing a present, unprocessed name strictly lowers the count.
proof fn lemma_count_strict(keys: Seq<Seq<char>>, processed: Seq<Seq<char>>, name: Seq<char>)
    requires
        keys.contains(name),
        !processed.contains(name),
    ensures
        count_unprocessed(keys, processed.push(name)) < count_unprocessed(keys, processed),
    decreases keys.len(),
{
    if keys.len() > 0 {
        if keys[0] == name {
            lemma_count_mono(keys.drop_first(), processed, name);
            assert(processed.push(name)[processed.len() as int] == name);
        } else {
            assert(keys.drop_first().contains(name)) by {
                let i = choose|i: int| 0 <= i < keys.len() && keys[i] == name;
                assert(keys.drop_first()[i - 1] == name);
            }
            lemma_count_strict(keys.drop_first(), processed, name);
            if processed.contains(keys[0]) {
                let i = choose|i: int| 0 <= i < processed.len() && processed[i] == keys[0];
                assert(processed.push(name)[i] == keys[0]);
            } else {
                if processed.push(name).contains(keys[0]) {
                    let i = choose|i: int|
                        0 <= i < processed.push(name).len() && processed.push(name)[i] == keys[0];
                    assert(i == processed.len());
                    assert(false);
                }
            }
        }
    }
}

/// The names of `gs` that are not in `processed`, in order.
pub open spec fn keep_unprocessed(gs: Seq<Seq<char>>, processed: Seq<Seq<char>>) -> Seq<Seq<char>>
    decreases gs.len(),
{
    if gs.len() == 0 {
        Seq::empty()
    } else {
        keep_unprocessed(gs.drop_last(), processed) + (if processed.contains(gs.last()) {
            Seq::empty()
        } else {
            seq![gs.last()]
        })
    }
}

/// One step of the group traversal: the top of the work stack is popped;
/// a name seen before is skipped, a new name is recorded and — when a
/// document of that name exists — its document is parsed and merged, and
/// the group names it references are stacked.
pub open spec fn chain_loop(
    docs: Seq<(Seq<char>, Seq<char>)>,
    cfg: ConfigView,
    stack: Seq<Seq<char>>,
    processed: Seq<Seq<char>>,
) -> ConfigView
    decreases count_unprocessed(assoc_keys(docs), processed), stack.len(),
    via chain_loop_decreases
{
    if stack.len() == 0 {
        cfg
    } else {
        let name = stack.last();
        let rest = stack.drop_last();
        if processed.contains(name) {
            chain_loop(docs, cfg, rest, processed)
        } else {
            let processed2 = processed.push(name);
            match assoc_get(docs, name) {
                Some(text) => {
                    let gcfg = spec_parse(text);
                    chain_loop(
                        docs,
                        merge_spec(cfg, gcfg),
                        rest + keep_unprocessed(gcfg.groups, processed2),
                        processed2,
                    )
                },
                None => chain_loop(docs, cfg, rest, processed2),
            }
        }
    }
}

#[via_fn]
proof fn chain_loop_decreases(
    docs: Seq<(Seq<char>, Seq<char>)>,
    cfg: ConfigView,
    stack: Seq<Seq<char>>,
    processed: Seq<Seq<char>>,
) {
    if stack.len() > 0 {
        let name = stack.last();
        if !processed.contains(name) {
            lemma_count_mono(assoc_keys(docs), processed, name);
            if assoc_get(docs, name) is Some {
                lemma_assoc_get_keys(docs, name);
                lemma_count_strict(assoc_keys(docs), processed, name);
            }
        }
    }
}

/// The parsed text of an optional document, or an empty configuration.
pub open spec fn parsed_or_empty(doc: Option<Seq<char>>) -> ConfigView {
    match doc {
        Some(t) => spec_parse(t),
        None => Config::empty_spec(),
    }
}

/// The group names the main and host documents reference, main's first,
/// without duplicates: what seeds the group traversal.
pub open spec fn seed_groups(main: Option<Seq<char>>, host: Option<Seq<char>>) -> Seq<Seq<char>> {
    merge_groups(
        merge_groups(Seq::<Seq<char>>::empty(), parsed_or_empty(main).groups),
        parsed_or_empty(host).groups,
    )
}

/// The group documents' contribution: the traversal of [`chain_loop`]
/// started from the `@group` references of the main and host documents.
pub open spec fn group_merged(
    main: Option<Seq<char>>,
    host: Option<Seq<char>>,
    docs: Seq<(Seq<char>, Seq<char>)>,
) -> ConfigView {
    let seed = seed_groups(main, host);
    let start = ConfigView {
        packages: Seq::<(Seq<char>, PackageView)>::empty(),
        groups: seed,
        env_vars: Seq::<(Seq<char>, Seq<char>)>::empty(),
    };
    chain_loop(docs, start, seed, Seq::empty())
}

/// What resolving the whole document chain yields, highest precedence
/// last: the group documents reached from the `@group` references are
/// traversed as [`chain_loop`] describes and merged among themselves, the
/// host document is merged over them, and the main document over both —
/// so a main entry beats a host entry, which beats a group entry.
pub open spec fn spec_resolve_chain(
    main: Option<Seq<char>>,
    host: Option<Seq<char>>,
    docs: Seq<(Seq<char>, Seq<char>)>,
) -> ConfigView {
    merge_spec(
        merge_spec(group_merged(main, host, docs), parsed_or_empty(host)),
        parsed_or_empty(main),
    )
}

/// Appends the names of `src` to `dst`, skipping names already present,
/// as [`merge_groups`] describes.
fn merge_group_names(dst: &mut Vec<String>, src: &Vec<String>)
    ensures
        final(dst).deep_view() == merge_groups(old(dst).deep_view(), src.deep_view()),
{
    let ghost d0 = dst.deep_view();
    let n: usize = src.len();
    let mut i: usize = 0;
    proof {
        assert(src.deep_view().skip(0) =~= src.deep_view());
    }
    while i < n
        invariant
            0 <= i <= n,
            n == src.len(),
            merge_groups(d0, src.deep_view()) == merge_groups(
                dst.deep_view(),
                src.deep_view().skip(i as int),
            ),
        decreases n - i,
    {
        proof {
            let rem = src.deep_view().skip(i as int);
            assert(rem[0] == src.deep_view()[i as int]);
            assert(rem.drop_first() =~= src.deep_view().skip(i + 1));
        }
        if !strutil::contains_string(dst, src[i].as_str()) {
            let ghost before = dst.deep_view();
            dst.push(src[i].clone());
            proof {
                assert(dst.deep_view() =~= before.push(src.deep_view()[i as int]));
            }
        }
        i = i + 1;
    }
    proof {
        assert(src.deep_view().skip(n as int) =~= Seq::<Seq<char>>::empty());
    }
}

impl Config {
    /// Merges `other` over this configuration, as [`merge_spec`] describes:
    /// `other`'s package entries and environment bindings win, group names
    /// are appended without duplicates.
    pub fn merge_with_precedence(&mut self, other: Config)
        requires
            old(self).wf(),
            other.wf(),
        ensures
            final(self)@ == merge_spec(old(self)@, other@),
            final(self).wf(),
            no_dup(old(self)@.groups) ==> no_dup(final(self)@.groups),
    {
        proof {
            lemma_merge_wf(self@, other@);
            if no_dup(self@.groups) {
                lemma_merge_groups_nodup(self@.groups, other@.groups);
            }
        }
        let ghost a0 = self@.packages;
        let bn: usize = other.packages.entries.len();
        let mut bi: usize = 0;
        proof {
            assert(other.packages@.skip(0) =~= other.packages@);
        }
        while bi < bn
            invariant
                0 <= bi <= bn,
                bn == other.packages.entries.len(),
                merge_assoc(a0, other.packages@) == merge_assoc(
                    self@.packages,
                    other.packages@.skip(bi as int),
                ),
                self@.groups == old(self)@.groups,
                self@.env_vars == old(self)@.env_vars,
            decreases bn - bi,
        {
            proof {
                let rem = other.packages@.skip(bi as int);
                assert(rem[0] == other.packages@[bi as int]);
                assert(rem.drop_first() =~= other.packages@.skip(bi + 1));
            }
            let slot = &other.packages.entries[bi];
            self.packages.insert(slot.name.clone(), slot.package.duplicate());
            bi = bi + 1;
        }
        proof {
            assert(other.packages@.skip(bn as int) =~= Seq::<(Seq<char>, PackageView)>::empty());
        }
        let gn: usize = other.groups.len();
        let ghost g0 = self@.groups;
        let mut gi: usize = 0;
        proof {
            assert(other.groups.deep_view().skip(0) =~= other.groups.deep_view());
        }
        while gi < gn
            invariant
                0 <= gi <= gn,
                gn == other.groups.len(),
                merge_groups(g0, other.groups.deep_view()) == merge_groups(
                    self.groups.deep_view(),
                    other.groups.deep_view().skip(gi as int),
                ),
                g0 == old(self)@.groups,
                self@.packages == merge_assoc(a0, other.packages@),
                self@.env_vars == old(self)@.env_vars,
            decreases gn - gi,
        {
            proof {
                let rem = other.groups.deep_view().skip(gi as int);
                assert(rem[0] == other.groups.deep_view()[gi as int]);
                assert(rem.drop_first() =~= other.groups.deep_view().skip(gi + 1));
            }
            if !strutil::contains_string(&self.groups, other.groups[gi].as_str()) {
                let ghost before = self.groups.deep_view();
                self.groups.push(other.groups[gi].clone());
                proof {
                    assert(self.groups.deep_view() =~= before.push(
                        other.groups.deep_view()[gi as int],
                    ));
                }
            }
            gi = gi + 1;
        }
        proof {
            assert(other.groups.deep_view().skip(gn as int) =~= Seq::<Seq<char>>::empty());
        }
        let ghost e0 = self@.env_vars;
        let en: usize = other.env_vars.entries.len();
        let mut ei: usize = 0;
        proof {
            assert(other.env_vars@.skip(0) =~= other.env_vars@);
        }
        while ei < en
            invariant
                0 <= ei <= en,
                en == other.env_vars.entries.len(),
                merge_assoc(e0, other.env_vars@) == merge_assoc(
                    self@.env_vars,
                    other.env_vars@.skip(ei as int),
                ),
                e0 == old(self)@.env_vars,
                self@.packages == merge_assoc(a0, other.packages@),
                self@.groups == merge_groups(old(self)@.groups, other.groups.deep_view()),
            decreases en - ei,
        {
            proof {
                let rem = other.env_vars@.skip(ei as int);
                assert(rem[0] == other.env_vars@[ei as int]);
                assert(rem.drop_first() =~= other.env_vars@.skip(ei + 1));
            }
            let entry = &other.env_vars.entries[ei];
            self.env_vars.insert(entry.key.clone(), entry.value.clone());
            ei = ei + 1;
        }
        proof {
            assert(other.packages@.skip(bn as int) =~= Seq::<(Seq<char>, PackageView)>::empty());
            assert(other.groups.deep_view().skip(gn as int) =~= Seq::<Seq<char>>::empty());
            assert(other.env_vars@.skip(en as int) =~= Seq::<(Seq<char>, Seq<char>)>::empty());
        }
    }

    /// Resolves the document chain, as [`spec_resolve_chain`] describes,
    /// with precedence main over host over groups: the group documents
    /// that `@group` references reach are traversed — each group name
    /// visited at most once — and merged first, then the host document and
    /// finally the main document are merged over them, so the
    /// highest-precedence declaration survives. The resolved group list
    /// holds each name at most once, also when the documents reference one
    /// another in a cycle.
    pub fn resolve_chain(
        main: Option<&String>,
        host: Option<&String>,
        group_docs: &Vec<GroupDoc>,
    ) -> (r: Config)
        ensures
            r@ == spec_resolve_chain(
                match main {
                    Some(t) => Some(t@),
                    None => None,
                },
                match host {
                    Some(t) => Some(t@),
                    None => None,
                },
                docs_view(group_docs@),
            ),
            r.wf(),
            no_dup(r@.groups),
    {
        let ghost docsv = docs_view(group_docs@);
        let ghost mainv: Option<Seq<char>> = match main {
            Some(t) => Some(t@),
            None => None,
        };
        let ghost hostv: Option<Seq<char>> = match host {
            Some(t) => Some(t@),
            None => None,
        };
        let main_cfg = match main {
            Some(text) => Config::parse(text.as_str()).unwrap(),
            None => Config::new(),
        };
        let host_cfg = match host {
            Some(text) => Config::parse(text.as_str()).unwrap(),
            None => Config::new(),
        };
        proof {
            assert(main_cfg@ == parsed_or_empty(mainv));
            assert(host_cfg@ == parsed_or_empty(hostv));
        }
        let mut config = Config::new();
        proof {
            assert(config.groups.deep_view() =~= Seq::<Seq<char>>::empty());
        }
        merge_group_names(&mut config.groups, &main_cfg.groups);
        proof {
            lemma_merge_groups_nodup(Seq::<Seq<char>>::empty(), main_cfg@.groups);
        }
        merge_group_names(&mut config.groups, &host_cfg.groups);
        proof {
            lemma_merge_groups_nodup(
                merge_groups(Seq::<Seq<char>>::empty(), main_cfg@.groups),
                host_cfg@.groups,
            );
            assert(config@.groups == seed_groups(mainv, hostv));
            assert(config@.packages =~= Seq::<(Seq<char>, PackageView)>::empty());
            assert(config@.env_vars =~= Seq::<(Seq<char>, Seq<char>)>::empty());
        }
        let ghost goal = chain_loop(docsv, config@, config@.groups, Seq::<Seq<char>>::empty());
        let mut stack: Vec<String> = strutil::clone_strings(&config.groups);
        let mut processed: Vec<String> = Vec::new();
        proof {
            assert(stack.deep_view() =~= config@.groups);
            assert(processed.deep_view() =~= Seq::<Seq<char>>::empty());
        }
        while stack.len() > 0
            invariant
                docsv == docs_view(group_docs@),
                chain_loop(docsv, config@, stack.deep_view(), processed.deep_view()) == goal,
                config.wf(),
                no_dup(config@.groups),
            decreases
                count_unprocessed(assoc_keys(docsv), processed.deep_view()),
                stack.len(),
        {
            let ghost old_stack = stack.deep_view();
            let ghost old_processed = processed.deep_view();
            let name = stack.pop().unwrap();
            proof {
                assert(stack.deep_view() =~= old_stack.drop_last());
                assert(old_stack.last() == name@);
            }
            let ghost old_cfg = config@;
            if strutil::contains_string(&processed, name.as_str()) {
                // Seen before: the traversal skips it.
                proof {
                    assert(chain_loop(docsv, old_cfg, old_stack, old_processed) == chain_loop(
                        docsv,
                        config@,
                        stack.deep_view(),
                        processed.deep_view(),
                    ));
                }
            } else {
                processed.push(name.clone());
                proof {
                    assert(processed.deep_view() =~= old_processed.push(name@));
                    lemma_count_mono(assoc_keys(docsv), old_processed, name@);
                }
                match Self::find_doc(group_docs, name.as_str()) {
                    Some(text) => {
                        proof {
                            assert(assoc_get(docsv, name@) == Some(text@));
                            lemma_assoc_get_keys(docsv, name@);
                            assert(assoc_keys(docsv).contains(name@));
                            lemma_count_strict(assoc_keys(docsv), old_processed, name@);
                        }
                        let gcfg = Config::parse(text.as_str()).unwrap();
                        let ghost rest = stack.deep_view();
                        let gn: usize = gcfg.groups.len();
                        let mut gi: usize = 0;
                        proof {
                            assert(keep_unprocessed(
                                gcfg.groups.deep_view().subrange(0, 0),
                                processed.deep_view(),
                            ) =~= Seq::<Seq<char>>::empty());
                            assert(stack.deep_view() =~= rest + keep_unprocessed(
                                gcfg.groups.deep_view().subrange(0, 0),
                                processed.deep_view(),
                            ));
                        }
                        while gi < gn
                            invariant
                                0 <= gi <= gn,
                                gn == gcfg.groups.len(),
                                stack.deep_view() == rest + keep_unprocessed(
                                    gcfg.groups.deep_view().subrange(0, gi as int),
                                    processed.deep_view(),
                                ),
                            decreases gn - gi,
                        {
                            let ghost pre = gcfg.groups.deep_view().subrange(0, gi as int);
                            proof {
                                let cur = gcfg.groups.deep_view().subrange(0, gi + 1);
                                assert(cur.drop_last() =~= pre);
                                assert(cur.last() == gcfg.groups.deep_view()[gi as int]);
                            }
                            if !strutil::contains_string(&processed, gcfg.groups[gi].as_str()) {
                                let ghost before = stack.deep_view();
                                stack.push(gcfg.groups[gi].clone());
                                proof {
                                    assert(stack.deep_view() =~= before.push(
                                        gcfg.groups.deep_view()[gi as int],
                                    ));
                                    assert(stack.deep_view() =~= rest + keep_unprocessed(
                                        gcfg.groups.deep_view().subrange(0, gi + 1),
                                        processed.deep_view(),
                                    ));
                                }
                            } else {
                                proof {
                                    assert(stack.deep_view() =~= rest + keep_unprocessed(
                                        gcfg.groups.deep_view().subrange(0, gi + 1),
                                        processed.deep_view(),
                                    ));
                                }
                            }
                            gi = gi + 1;
                        }
                        proof {
                            assert(gcfg.groups.deep_view().subrange(0, gn as int) =~= gcfg
                                .groups
                                .deep_view());
                        }
                        let ghost gview = gcfg@;
                        config.merge_with_precedence(gcfg);
                        proof {
                            assert(gview == spec_parse(text@));
                            assert(stack.deep_view() == rest + keep_unprocessed(
                                gview.groups,
                                processed.deep_view(),
                            ));
                            assert(config@ == merge_spec(old_cfg, gview));
                            assert(chain_loop(docsv, old_cfg, old_stack, old_processed)
                                == chain_loop(
                                docsv,
                                config@,
                                stack.deep_view(),
                                processed.deep_view(),
                            ));
                        }
                    },
                    None => {
                        proof {
                            assert(chain_loop(docsv, old_cfg, old_stack, old_processed)
                                == chain_loop(
                                docsv,
                                config@,
                                stack.deep_view(),
                                processed.deep_view(),
                            ));
                        }
                    },
                }
            }
        }
        proof {
            assert(stack.deep_view() =~= Seq::<Seq<char>>::empty());
            assert(config@ == goal);
        }
        config.merge_with_precedence(host_cfg);
        config.merge_with_precedence(main_cfg);
        proof {
            assert(config@ == merge_spec(merge_spec(goal, parsed_or_empty(hostv)),
                parsed_or_empty(mainv)));
        }
        config
    }

    /// Looks up the text of the group document named `name`, front first.
    fn find_doc<'a>(group_docs: &'a Vec<GroupDoc>, name: &str) -> (r: Option<&'a String>)
        ensures
            match r {
                Some(t) => assoc_get(docs_view(group_docs@), name@) == Some(t@),
                None => assoc_get(docs_view(group_docs@), name@) is None,
            },
    {
        let n: usize = group_docs.len();
        let mut i: usize = 0;
        let ghost dv = docs_view(group_docs@);
        proof {
            assert(dv.skip(0) =~= dv);
        }
        while i < n
            invariant
                0 <= i <= n,
                n == group_docs.len(),
                dv == docs_view(group_docs@),
                assoc_get(dv, name@) == assoc_get(dv.skip(i as int), name@),
            decreases n - i,
        {
            proof {
                assert(dv.skip(i as int)[0] == dv[i as int]);
                assert(dv.skip(i as int).drop_first() =~= dv.skip(i + 1));
            }
            if strutil::str_eq(group_docs[i].name.as_str(), name) {
                return Some(&group_docs[i].text);
            }
            i = i + 1;
        }
        None
    }
}

/// The entry sequence of a sequence of group documents.
pub open spec fn docs_view(s: Seq<GroupDoc>) -> Seq<(Seq<char>, Seq<char>)> {
    s.map_values(|d: GroupDoc| d@)
}

} // verus!
