//! Environment-variable reconciliation: gathering the merged variable map
//! from a configuration, diffing it against the variables a shell file
//! already exports, and rendering the bash and fish startup files.

use vstd::prelude::*;

use crate::config::{assoc_get, assoc_keys, assoc_set, lemma_assoc_get_keys, Config, EnvEntry,
    EnvMap};
use crate::strutil;
use crate::strutil::{lemma_sort_contains, lines_spec, sort_lex_spec, split_once_spec,
    starts_with_spec, trim_spec};

verus! {

/// The package-scoped entries bound over the global ones, package by
/// package in declaration order.
pub open spec fn merged_env_spec(c: crate::config::ConfigView) -> Seq<(Seq<char>, Seq<char>)>
    decreases c.packages.len(),
{
    merged_env_from(c.env_vars, c.packages)
}

/// Folds every package's bindings over `acc`.
pub open spec fn merged_env_from(
    acc: Seq<(Seq<char>, Seq<char>)>,
    pkgs: Seq<(Seq<char>, crate::config::PackageView)>,
) -> Seq<(Seq<char>, Seq<char>)>
    decreases pkgs.len(),
{
    if pkgs.len() == 0 {
        acc
    } else {
        merged_env_from(crate::chain::merge_assoc(acc, pkgs[0].1.env_vars), pkgs.drop_first())
    }
}

/// The merged entries ordered by key: the sorted keys, each with its value.
pub open spec fn collect_env_spec(c: crate::config::ConfigView) -> Seq<(Seq<char>, Seq<char>)> {
    let merged = merged_env_spec(c);
    sort_lex_spec(assoc_keys(merged)).map_values(
        |k: Seq<char>| (k, assoc_get(merged, k)->Some_0),
    )
}

/// Gathers all environment variables — global first, package-scoped
/// entries overriding them — sorted by name, as [`collect_env_spec`]
/// describes.
pub fn collect_all_env_vars(config: &Config) -> (r: Vec<EnvEntry>)
    ensures
        r@.map_values(|e: EnvEntry| e@) == collect_env_spec(config@),
{
    let ghost pv = config@.packages;
    let mut merged = EnvMap { entries: clone_env_entries(&config.env_vars.entries) };
    let pn: usize = config.packages.entries.len();
    let mut i: usize = 0;
    proof {
        assert(pv.skip(0) =~= pv);
    }
    while i < pn
        invariant
            0 <= i <= pn,
            pn == config.packages.entries.len(),
            pv == config@.packages,
            merged_env_spec(config@) == merged_env_from(merged@, pv.skip(i as int)),
        decreases pn - i,
    {
        proof {
            assert(pv.skip(i as int)[0] == pv[i as int]);
            assert(pv.skip(i as int).drop_first() =~= pv.skip(i + 1));
        }
        let pkg_env = &config.packages.entries[i].package.env_vars;
        let en: usize = pkg_env.entries.len();
        let ghost acc0 = merged@;
        let mut j: usize = 0;
        proof {
            assert(pkg_env@.skip(0) =~= pkg_env@);
        }
        while j < en
            invariant
                0 <= j <= en,
                en == pkg_env.entries.len(),
                i < pn == config.packages.entries.len(),
                pkg_env == config.packages.entries[i as int].package.env_vars,
                crate::chain::merge_assoc(acc0, pkg_env@) == crate::chain::merge_assoc(
                    merged@,
                    pkg_env@.skip(j as int),
                ),
            decreases en - j,
        {
            proof {
                let rem = pkg_env@.skip(j as int);
                assert(rem[0] == pkg_env@[j as int]);
                assert(rem.drop_first() =~= pkg_env@.skip(j + 1));
            }
            merged.insert(pkg_env.entries[j].key.clone(), pkg_env.entries[j].value.clone());
            j = j + 1;
        }
        proof {
            assert(pkg_env@.skip(en as int) =~= Seq::<(Seq<char>, Seq<char>)>::empty());
            assert(pv[i as int].1.env_vars == pkg_env@);
        }
        i = i + 1;
    }
    proof {
        assert(pv.skip(pn as int)
            =~= Seq::<(Seq<char>, crate::config::PackageView)>::empty());
    }
    // Sort the keys and read the values back.
    let kn: usize = merged.entries.len();
    let mut keys: Vec<String> = Vec::new();
    let mut k: usize = 0;
    proof {
        assert(keys.deep_view() =~= assoc_keys(merged@).subrange(0, 0));
    }
    while k < kn
        invariant
            0 <= k <= kn,
            kn == merged.entries.len(),
            keys.deep_view() =~= assoc_keys(merged@).subrange(0, k as int),
        decreases kn - k,
    {
        let ghost before = keys.deep_view();
        keys.push(merged.entries[k].key.clone());
        proof {
            assert(keys.deep_view() =~= before.push(assoc_keys(merged@)[k as int]));
            assert(keys.deep_view() =~= assoc_keys(merged@).subrange(0, k + 1));
        }
        k = k + 1;
    }
    proof {
        assert(assoc_keys(merged@).subrange(0, kn as int) =~= assoc_keys(merged@));
    }
    let sorted = strutil::sort_strings(&keys);
    let sn: usize = sorted.len();
    let mut out: Vec<EnvEntry> = Vec::new();
    let mut s: usize = 0;
    proof {
        assert(out@.map_values(|e: EnvEntry| e@) =~= sort_lex_spec(assoc_keys(merged@)).subrange(
            0,
            0,
        ).map_values(|q: Seq<char>| (q, assoc_get(merged@, q)->Some_0)));
    }
    while s < sn
        invariant
            0 <= s <= sn,
            sn == sorted.len(),
            sorted.deep_view() == sort_lex_spec(assoc_keys(merged@)),
            out@.map_values(|e: EnvEntry| e@) =~= sort_lex_spec(assoc_keys(merged@)).subrange(
                0,
                s as int,
            ).map_values(|q: Seq<char>| (q, assoc_get(merged@, q)->Some_0)),
        decreases sn - s,
    {
        let key = &sorted[s];
        proof {
            assert(sorted.deep_view()[s as int] == key@);
            assert(sorted.deep_view().contains(key@));
            lemma_sort_contains(assoc_keys(merged@));
            lemma_assoc_get_keys(merged@, key@);
        }
        let value = merged.get(key.as_str()).unwrap().clone();
        let ghost before = out@.map_values(|e: EnvEntry| e@);
        out.push(EnvEntry { key: key.clone(), value });
        proof {
            assert(out@.map_values(|e: EnvEntry| e@) =~= before.push(
                (key@, assoc_get(merged@, key@)->Some_0),
            ));
            assert(sort_lex_spec(assoc_keys(merged@)).subrange(0, s + 1).map_values(
                |q: Seq<char>| (q, assoc_get(merged@, q)->Some_0),
            ) =~= before.push((key@, assoc_get(merged@, key@)->Some_0)));
        }
        s = s + 1;
    }
    proof {
        assert(sort_lex_spec(assoc_keys(merged@)).subrange(0, sn as int) =~= sort_lex_spec(
            assoc_keys(merged@),
        ));
    }
    out
}

/// Copies environment entries, element for element.
fn clone_env_entries(v: &Vec<EnvEntry>) -> (r: Vec<EnvEntry>)
    ensures
        r@.map_values(|e: EnvEntry| e@) == v@.map_values(|e: EnvEntry| e@),
{
    let n: usize = v.len();
    let mut out: Vec<EnvEntry> = Vec::new();
    let mut i: usize = 0;
    while i < n
        invariant
            0 <= i <= n,
            n == v.len(),
            out@.map_values(|e: EnvEntry| e@) =~= v@.map_values(|e: EnvEntry| e@).subrange(
                0,
                i as int,
            ),
        decreases n - i,
    {
        let ghost before = out@.map_values(|e: EnvEntry| e@);
        out.push(EnvEntry { key: v[i].key.clone(), value: v[i].value.clone() });
        proof {
            assert(out@.map_values(|e: EnvEntry| e@) =~= before.push(v@[i as int]@));
        }
        i = i + 1;
    }
    proof {
        assert(v@.map_values(|e: EnvEntry| e@).subrange(0, n as int) =~= v@.map_values(
            |e: EnvEntry| e@,
        ));
    }
    out
}

/// How the wanted variables relate to the ones already exported.
#[derive(Debug)]
pub struct EnvComparison {
    pub added: Vec<EnvEntry>,
    pub updated: Vec<EnvEntry>,
    pub unchanged: Vec<EnvEntry>,
    pub removed: Vec<String>,
}

/// The wanted entries whose relation to `existing` is as asked: `None`
/// selects new keys; `Some(true)` keys bound to the same value;
/// `Some(false)` keys bound to another value.
pub open spec fn compare_select(
    news: Seq<(Seq<char>, Seq<char>)>,
    existing: Seq<(Seq<char>, Seq<char>)>,
    relation: Option<bool>,
) -> Seq<(Seq<char>, Seq<char>)>
    decreases news.len(),
{
    if news.len() == 0 {
        Seq::empty()
    } else {
        compare_select(news.drop_last(), existing, relation) + (if (match assoc_get(
            existing,
            news.last().0,
        ) {
            Some(v) => Some(v == news.last().1),
            None => None,
        }) == relation {
            seq![news.last()]
        } else {
            Seq::<(Seq<char>, Seq<char>)>::empty()
        })
    }
}

/// The existing keys that are wanted no longer, in their existing order.
pub open spec fn removed_keys_spec(
    news: Seq<(Seq<char>, Seq<char>)>,
    existing: Seq<(Seq<char>, Seq<char>)>,
) -> Seq<Seq<char>>
    decreases existing.len(),
{
    if existing.len() == 0 {
        Seq::empty()
    } else {
        removed_keys_spec(news, existing.drop_last()) + (if assoc_keys(news).contains(
            existing.last().0,
        ) {
            Seq::<Seq<char>>::empty()
        } else {
            seq![existing.last().0]
        })
    }
}

/// Diffs the wanted variables against the existing ones: `added` are new
/// keys, `updated` keys with another value, `unchanged` keys with the same
/// value — each in wanted order — and `removed` the existing keys no
/// longer wanted, as [`compare_select`] and [`removed_keys_spec`] describe.
pub fn compare_env_vars(new_envs: &Vec<EnvEntry>, existing: &EnvMap) -> (r: EnvComparison)
    ensures
        r.added@.map_values(|e: EnvEntry| e@) == compare_select(
            new_envs@.map_values(|e: EnvEntry| e@),
            existing@,
            None,
        ),
        r.updated@.map_values(|e: EnvEntry| e@) == compare_select(
            new_envs@.map_values(|e: EnvEntry| e@),
            existing@,
            Some(false),
        ),
        r.unchanged@.map_values(|e: EnvEntry| e@) == compare_select(
            new_envs@.map_values(|e: EnvEntry| e@),
            existing@,
            Some(true),
        ),
        r.removed.deep_view() == removed_keys_spec(
            new_envs@.map_values(|e: EnvEntry| e@),
            existing@,
        ),
{
    let ghost nv = new_envs@.map_values(|e: EnvEntry| e@);
    let mut added: Vec<EnvEntry> = Vec::new();
    let mut updated: Vec<EnvEntry> = Vec::new();
    let mut unchanged: Vec<EnvEntry> = Vec::new();
    let n: usize = new_envs.len();
    let mut i: usize = 0;
    proof {
        assert(added@.map_values(|e: EnvEntry| e@) =~= compare_select(
            nv.subrange(0, 0),
            existing@,
            None,
        ));
        assert(updated@.map_values(|e: EnvEntry| e@) =~= compare_select(
            nv.subrange(0, 0),
            existing@,
            Some(false),
        ));
        assert(unchanged@.map_values(|e: EnvEntry| e@) =~= compare_select(
            nv.subrange(0, 0),
            existing@,
            Some(true),
        ));
    }
    while i < n
        invariant
            0 <= i <= n,
            n == new_envs.len(),
            nv == new_envs@.map_values(|e: EnvEntry| e@),
            added@.map_values(|e: EnvEntry| e@) == compare_select(
                nv.subrange(0, i as int),
                existing@,
                None,
            ),
            updated@.map_values(|e: EnvEntry| e@) == compare_select(
                nv.subrange(0, i as int),
                existing@,
                Some(false),
            ),
            unchanged@.map_values(|e: EnvEntry| e@) == compare_select(
                nv.subrange(0, i as int),
                existing@,
                Some(true),
            ),
        decreases n - i,
    {
        proof {
            let cur = nv.subrange(0, i + 1);
            assert(cur.drop_last() =~= nv.subrange(0, i as int));
            assert(cur.last() == nv[i as int]);
        }
        let entry = &new_envs[i];
        let copy = EnvEntry { key: entry.key.clone(), value: entry.value.clone() };
        match existing.get(entry.key.as_str()) {
            Some(v) => {
                if strutil::str_eq(v.as_str(), entry.value.as_str()) {
                    let ghost before = unchanged@.map_values(|e: EnvEntry| e@);
                    unchanged.push(copy);
                    proof {
                        assert(unchanged@.map_values(|e: EnvEntry| e@) =~= before.push(
                            nv[i as int],
                        ));
                        assert(added@.map_values(|e: EnvEntry| e@) =~= compare_select(
                            nv.subrange(0, i + 1),
                            existing@,
                            None,
                        ));
                        assert(updated@.map_values(|e: EnvEntry| e@) =~= compare_select(
                            nv.subrange(0, i + 1),
                            existing@,
                            Some(false),
                        ));
                    }
                } else {
                    let ghost before = updated@.map_values(|e: EnvEntry| e@);
                    updated.push(copy);
                    proof {
                        assert(updated@.map_values(|e: EnvEntry| e@) =~= before.push(
                            nv[i as int],
                        ));
                        assert(added@.map_values(|e: EnvEntry| e@) =~= compare_select(
                            nv.subrange(0, i + 1),
                            existing@,
                            None,
                        ));
                        assert(unchanged@.map_values(|e: EnvEntry| e@) =~= compare_select(
                            nv.subrange(0, i + 1),
                            existing@,
                            Some(true),
                        ));
                    }
                }
            },
            None => {
                let ghost before = added@.map_values(|e: EnvEntry| e@);
                added.push(copy);
                proof {
                    assert(added@.map_values(|e: EnvEntry| e@) =~= before.push(nv[i as int]));
                    assert(updated@.map_values(|e: EnvEntry| e@) =~= compare_select(
                        nv.subrange(0, i + 1),
                        existing@,
                        Some(false),
                    ));
                    assert(unchanged@.map_values(|e: EnvEntry| e@) =~= compare_select(
                        nv.subrange(0, i + 1),
                        existing@,
                        Some(true),
                    ));
                }
            },
        }
        i = i + 1;
    }
    proof {
        assert(nv.subrange(0, n as int) =~= nv);
    }
    let mut removed: Vec<String> = Vec::new();
    let en: usize = existing.entries.len();
    let mut k: usize = 0;
    proof {
        assert(removed.deep_view() =~= removed_keys_spec(nv, existing@.subrange(0, 0)));
    }
    while k < en
        invariant
            0 <= k <= en,
            en == existing.entries.len(),
            n == new_envs.len(),
            nv == new_envs@.map_values(|e: EnvEntry| e@),
            removed.deep_view() == removed_keys_spec(nv, existing@.subrange(0, k as int)),
        decreases en - k,
    {
        proof {
            let cur = existing@.subrange(0, k + 1);
            assert(cur.drop_last() =~= existing@.subrange(0, k as int));
            assert(cur.last() == existing@[k as int]);
        }
        let key = &existing.entries[k].key;
        let mut found: bool = false;
        let mut j: usize = 0;
        while j < n
            invariant
                0 <= j <= n,
                n == new_envs.len(),
                nv == new_envs@.map_values(|e: EnvEntry| e@),
                found == exists|q: int| 0 <= q < j && assoc_keys(nv)[q] == key@,
            decreases n - j,
        {
            if strutil::str_eq(new_envs[j].key.as_str(), key.as_str()) {
                proof {
                    assert(assoc_keys(nv)[j as int] == key@);
                }
                found = true;
            }
            j = j + 1;
        }
        proof {
            if found {
                let q = choose|q: int| 0 <= q < n && assoc_keys(nv)[q] == key@;
                assert(assoc_keys(nv).contains(key@));
            } else {
                if assoc_keys(nv).contains(key@) {
                    let q = choose|q: int|
                        0 <= q < assoc_keys(nv).len() && assoc_keys(nv)[q] == key@;
                    assert(false);
                }
            }
        }
        if !found {
            let ghost before = removed.deep_view();
            removed.push(key.clone());
            proof {
                assert(removed.deep_view() =~= before.push(existing@[k as int].0));
            }
        }
        k = k + 1;
    }
    proof {
        assert(existing@.subrange(0, en as int) =~= existing@);
    }
    EnvComparison { added, updated, unchanged, removed }
}

/// `s` with each `\` and `"` preceded by a backslash, so the value sits
/// whole between the double quotes of a shell file.
pub open spec fn escape_spec(s: Seq<char>) -> Seq<char>
    decreases s.len(),
{
    if s.len() == 0 {
        Seq::empty()
    } else {
        (if s[0] == '"' || s[0] == '\\' {
            seq!['\\', s[0]]
        } else {
            seq![s[0]]
        }) + escape_spec(s.drop_first())
    }
}

/// The inverse of [`escape_spec`]: a backslash takes the character after
/// it verbatim.
pub open spec fn unescape_spec(s: Seq<char>) -> Seq<char>
    decreases s.len(),
{
    if s.len() == 0 {
        Seq::empty()
    } else if s[0] == '\\' && s.len() >= 2 {
        seq![s[1]] + unescape_spec(s.skip(2))
    } else {
        seq![s[0]] + unescape_spec(s.drop_first())
    }
}

/// Unescaping undoes escaping: every value written to a shell file reads
/// back unchanged.
pub proof fn lemma_unescape_escape(s: Seq<char>)
    ensures
        unescape_spec(escape_spec(s)) == s,
    decreases s.len(),
{
    if s.len() > 0 {
        lemma_unescape_escape(s.drop_first());
        let t = escape_spec(s);
        if s[0] == '"' || s[0] == '\\' {
            assert(t == seq!['\\', s[0]] + escape_spec(s.drop_first()));
            assert(t[0] == '\\');
            assert(t[1] == s[0]);
            assert(t.skip(2) =~= escape_spec(s.drop_first()));
            assert(unescape_spec(t) =~= seq![s[0]] + s.drop_first());
            assert(seq![s[0]] + s.drop_first() =~= s);
        } else {
            assert(t == seq![s[0]] + escape_spec(s.drop_first()));
            assert(t[0] == s[0]);
            assert(t.drop_first() =~= escape_spec(s.drop_first()));
            assert(unescape_spec(t) =~= seq![s[0]] + s.drop_first());
            assert(seq![s[0]] + s.drop_first() =~= s);
        }
    }
}

proof fn lemma_escape_snoc(t: Seq<char>, c: char)
    ensures
        escape_spec(t.push(c)) == escape_spec(t) + (if c == '"' || c == '\\' {
            seq!['\\', c]
        } else {
            seq![c]
        }),
    decreases t.len(),
{
    let piece = (if c == '"' || c == '\\' {
        seq!['\\', c]
    } else {
        seq![c]
    });
    if t.len() == 0 {
        assert(t.push(c)[0] == c);
        assert(t.push(c).drop_first() =~= Seq::<char>::empty());
        assert(escape_spec(Seq::<char>::empty()) == Seq::<char>::empty());
        assert(escape_spec(t.push(c)) == piece + escape_spec(t.push(c).drop_first()));
        assert(piece + Seq::<char>::empty() =~= piece);
        assert(escape_spec(t) + piece =~= piece);
    } else {
        lemma_escape_snoc(t.drop_first(), c);
        assert(t.push(c)[0] == t[0]);
        assert(t.push(c).drop_first() =~= t.drop_first().push(c));
        let head = (if t[0] == '"' || t[0] == '\\' {
            seq!['\\', t[0]]
        } else {
            seq![t[0]]
        });
        assert(escape_spec(t.push(c)) == head + (escape_spec(t.drop_first()) + piece));
        assert(head + (escape_spec(t.drop_first()) + piece) =~= (head + escape_spec(
            t.drop_first(),
        )) + piece);
    }
}

/// Escapes a value for a double-quoted shell assignment, as
/// [`escape_spec`] describes.
pub fn escape_value(s: &str) -> (r: String)
    ensures
        r@ == escape_spec(s@),
{
    let n: usize = s.unicode_len();
    let mut out = String::new();
    let mut i: usize = 0;
    proof {
        assert(out@ =~= escape_spec(s@.subrange(0, 0)));
    }
    while i < n
        invariant
            0 <= i <= n,
            n == s@.len(),
            out@ == escape_spec(s@.subrange(0, i as int)),
        decreases n - i,
    {
        proof {
            let cur = s@.subrange(0, i + 1);
            assert(cur.drop_last() =~= s@.subrange(0, i as int));
            assert(cur.last() == s@[i as int]);
            assert(s@.subrange(0, i as int).push(s@[i as int]) =~= cur);
            lemma_escape_snoc(s@.subrange(0, i as int), s@[i as int]);
        }
        let c = s.get_char(i);
        if c == '"' || c == '\\' {
            out.append("\\");
            proof {
                reveal_strlit("\\");
                assert("\\"@ =~= seq!['\\']);
            }
        }
        out.append(s.substring_char(i, i + 1));
        proof {
            assert(s@.subrange(i as int, i + 1) =~= seq![s@[i as int]]);
        }
        i = i + 1;
    }
    proof {
        assert(s@.subrange(0, n as int) =~= s@);
    }
    out
}

/// Undoes [`escape_value`], as [`unescape_spec`] describes.
pub fn unescape_value(s: &str) -> (r: String)
    ensures
        r@ == unescape_spec(s@),
{
    let n: usize = s.unicode_len();
    let mut out = String::new();
    let mut i: usize = 0;
    proof {
        assert(s@.skip(0) =~= s@);
        assert(out@ + unescape_spec(s@) =~= unescape_spec(s@));
    }
    while i < n
        invariant
            0 <= i <= n,
            n == s@.len(),
            unescape_spec(s@) == out@ + unescape_spec(s@.skip(i as int)),
        decreases n - i,
    {
        let ghost rem = s@.skip(i as int);
        proof {
            assert(rem[0] == s@[i as int]);
            if i + 1 < n {
                assert(rem[1] == s@[i + 1]);
            }
        }
        let c = s.get_char(i);
        if c == '\\' && i + 1 < n {
            out.append(s.substring_char(i + 1, i + 2));
            proof {
                assert(s@.subrange(i as int + 1, i as int + 2) =~= seq![s@[i + 1]]);
                assert(rem.skip(2) =~= s@.skip(i + 2));
                assert(unescape_spec(rem) == seq![rem[1]] + unescape_spec(rem.skip(2)));
            }
            i = i + 2;
        } else {
            out.append(s.substring_char(i, i + 1));
            proof {
                assert(s@.subrange(i as int, i + 1) =~= seq![s@[i as int]]);
                assert(rem.drop_first() =~= s@.skip(i + 1));
                assert(unescape_spec(rem) == seq![rem[0]] + unescape_spec(rem.drop_first()));
            }
            i = i + 1;
        }
    }
    proof {
        assert(s@.skip(n as int) =~= Seq::<char>::empty());
    }
    out
}

/// The bash startup file: one `export NAME="value"` line per variable.
pub open spec fn render_bash_spec(envs: Seq<(Seq<char>, Seq<char>)>) -> Seq<char>
    decreases envs.len(),
{
    if envs.len() == 0 {
        Seq::empty()
    } else {
        render_bash_spec(envs.drop_last()) + "export "@ + envs.last().0 + "=\""@
            + escape_spec(envs.last().1) + "\"\n"@
    }
}

/// The fish startup file: one `set -x NAME "value"` line per variable.
pub open spec fn render_fish_spec(envs: Seq<(Seq<char>, Seq<char>)>) -> Seq<char>
    decreases envs.len(),
{
    if envs.len() == 0 {
        Seq::empty()
    } else {
        render_fish_spec(envs.drop_last()) + "set -x "@ + envs.last().0 + " \""@
            + escape_spec(envs.last().1) + "\"\n"@
    }
}

/// Writes the bash startup file, as [`render_bash_spec`] describes.
pub fn render_env_bash(envs: &Vec<EnvEntry>) -> (r: String)
    ensures
        r@ == render_bash_spec(envs@.map_values(|e: EnvEntry| e@)),
{
    let ghost ev = envs@.map_values(|e: EnvEntry| e@);
    let mut out = String::new();
    let n: usize = envs.len();
    let mut i: usize = 0;
    proof {
        assert(out@ =~= render_bash_spec(ev.subrange(0, 0)));
    }
    while i < n
        invariant
            0 <= i <= n,
            n == envs.len(),
            ev == envs@.map_values(|e: EnvEntry| e@),
            out@ == render_bash_spec(ev.subrange(0, i as int)),
        decreases n - i,
    {
        proof {
            let cur = ev.subrange(0, i + 1);
            assert(cur.drop_last() =~= ev.subrange(0, i as int));
            assert(cur.last() == ev[i as int]);
        }
        out.append("export ");
        out.append(envs[i].key.as_str());
        out.append("=\"");
        out.append(escape_value(envs[i].value.as_str()).as_str());
        out.append("\"\n");
        i = i + 1;
    }
    proof {
        assert(ev.subrange(0, n as int) =~= ev);
    }
    out
}

/// Writes the fish startup file, as [`render_fish_spec`] describes.
pub fn render_env_fish(envs: &Vec<EnvEntry>) -> (r: String)
    ensures
        r@ == render_fish_spec(envs@.map_values(|e: EnvEntry| e@)),
{
    let ghost ev = envs@.map_values(|e: EnvEntry| e@);
    let mut out = String::new();
    let n: usize = envs.len();
    let mut i: usize = 0;
    proof {
        assert(out@ =~= render_fish_spec(ev.subrange(0, 0)));
    }
    while i < n
        invariant
            0 <= i <= n,
            n == envs.len(),
            ev == envs@.map_values(|e: EnvEntry| e@),
            out@ == render_fish_spec(ev.subrange(0, i as int)),
        decreases n - i,
    {
        proof {
            let cur = ev.subrange(0, i + 1);
            assert(cur.drop_last() =~= ev.subrange(0, i as int));
            assert(cur.last() == ev[i as int]);
        }
        out.append("set -x ");
        out.append(envs[i].key.as_str());
        out.append(" \"");
        out.append(escape_value(envs[i].value.as_str()).as_str());
        out.append("\"\n");
        i = i + 1;
    }
    proof {
        assert(ev.subrange(0, n as int) =~= ev);
    }
    out
}

/// What one line of a bash startup file binds: the key and value of an
/// `export KEY=VALUE` line, one pair of surrounding double quotes dropped
/// from the value and its escapes undone.
pub open spec fn env_line_binding(line: Seq<char>) -> Option<(Seq<char>, Seq<char>)> {
    let t = trim_spec(line);
    if starts_with_spec(t, "export "@) {
        match split_once_spec(t.subrange("export "@.len() as int, t.len() as int), "="@) {
            Some(p) => Some((p.0, unescape_spec(unquote_spec(p.1)))),
            None => None,
        }
    } else {
        None
    }
}

/// `s` without one pair of surrounding double quotes, when it has one.
pub open spec fn unquote_spec(s: Seq<char>) -> Seq<char> {
    if s.len() >= 2 && s[0] == '"' && s[s.len() - 1] == '"' {
        s.subrange(1, s.len() - 1)
    } else {
        s
    }
}

/// The variables a bash startup file binds, later lines overriding.
pub open spec fn parse_env_file_spec(lines: Seq<Seq<char>>) -> Seq<(Seq<char>, Seq<char>)>
    decreases lines.len(),
{
    if lines.len() == 0 {
        Seq::empty()
    } else {
        match env_line_binding(lines.last()) {
            Some(p) => assoc_set(parse_env_file_spec(lines.drop_last()), p.0, p.1),
            None => parse_env_file_spec(lines.drop_last()),
        }
    }
}

/// Reads the variables a bash startup file exports, as
/// [`parse_env_file_spec`] describes.
pub fn parse_env_file(content: &str) -> (r: EnvMap)
    ensures
        r@ == parse_env_file_spec(lines_spec(content@)),
{
    let lines = strutil::split_lines(content);
    let n: usize = lines.len();
    let mut out = EnvMap::new();
    let mut i: usize = 0;
    proof {
        assert(parse_env_file_spec(lines.deep_view().subrange(0, 0)) =~= out@);
    }
    while i < n
        invariant
            0 <= i <= n,
            n == lines.len(),
            out@ == parse_env_file_spec(lines.deep_view().subrange(0, i as int)),
        decreases n - i,
    {
        proof {
            let cur = lines.deep_view().subrange(0, i + 1);
            assert(cur.drop_last() =~= lines.deep_view().subrange(0, i as int));
            assert(cur.last() == lines.deep_view()[i as int]);
        }
        let t = strutil::trim(lines[i].as_str());
        if let Some(rest) = strutil::strip_prefix(t, "export ") {
            if let Some((key, rawvalue)) = strutil::split_once(rest, "=") {
                let vn: usize = rawvalue.unicode_len();
                let unquoted: &str = if vn >= 2 && rawvalue.get_char(0) == '"' && rawvalue.get_char(
                    vn - 1,
                ) == '"' {
                    rawvalue.substring_char(1, vn - 1)
                } else {
                    rawvalue
                };
                out.insert(key.to_owned(), unescape_value(unquoted));
            }
        }
        i = i + 1;
    }
    proof {
        assert(lines.deep_view().subrange(0, n as int) =~= lines.deep_view());
    }
    out
}

} // verus!
