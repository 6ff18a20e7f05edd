//! Service reconciliation: which services the configuration asks for, and
//! what to do for one service given its observed state. Talking to the
//! init system is the caller's part.

use vstd::prelude::*;

use crate::config::{Config, PackageView};
use crate::strutil;
use crate::strutil::sort_lex_spec;

verus! {

/// What one reconciliation pass did to the services.
#[derive(Debug)]
pub struct ServiceResult {
    pub changed: bool,
    pub enabled_services: Vec<String>,
    pub started_services: Vec<String>,
    pub failed_services: Vec<String>,
}

/// The service names the packages declare, in declaration order.
pub open spec fn service_names(pkgs: Seq<(Seq<char>, PackageView)>) -> Seq<Seq<char>>
    decreases pkgs.len(),
{
    if pkgs.len() == 0 {
        Seq::empty()
    } else {
        service_names(pkgs.drop_last()) + (match pkgs.last().1.service {
            Some(s) => seq![s],
            None => Seq::<Seq<char>>::empty(),
        })
    }
}

/// `s` with runs of equal adjacent names collapsed.
pub open spec fn dedup_adjacent(s: Seq<Seq<char>>) -> Seq<Seq<char>>
    decreases s.len(),
{
    if s.len() <= 1 {
        s
    } else if s.last() == s[s.len() - 2] {
        dedup_adjacent(s.drop_last())
    } else {
        dedup_adjacent(s.drop_last()).push(s.last())
    }
}

/// The declared services, sorted and with duplicates removed.
pub open spec fn configured_services_spec(c: crate::config::ConfigView) -> Seq<Seq<char>> {
    dedup_adjacent(sort_lex_spec(service_names(c.packages)))
}

/// Collects the declared service names, sorted without duplicates, as
/// [`configured_services_spec`] describes.
pub fn get_configured_services(config: &Config) -> (r: Vec<String>)
    ensures
        r.deep_view() == configured_services_spec(config@),
{
    let ghost pv = config@.packages;
    let pn: usize = config.packages.entries.len();
    let mut names: Vec<String> = Vec::new();
    let mut i: usize = 0;
    proof {
        assert(service_names(pv.subrange(0, 0)) =~= names.deep_view());
    }
    while i < pn
        invariant
            0 <= i <= pn,
            pn == config.packages.entries.len(),
            pv == config@.packages,
            names.deep_view() == service_names(pv.subrange(0, i as int)),
        decreases pn - i,
    {
        proof {
            let cur = pv.subrange(0, i + 1);
            assert(cur.drop_last() =~= pv.subrange(0, i as int));
            assert(cur.last() == pv[i as int]);
        }
        if let Some(svc) = &config.packages.entries[i].package.service {
            let ghost before = names.deep_view();
            names.push(svc.clone());
            proof {
                assert(names.deep_view() =~= before.push(pv[i as int].1.service->Some_0));
            }
        }
        i = i + 1;
    }
    proof {
        assert(pv.subrange(0, pn as int) =~= pv);
    }
    let sorted = strutil::sort_strings(&names);
    let sn: usize = sorted.len();
    let mut out: Vec<String> = Vec::new();
    let mut k: usize = 0;
    proof {
        assert(dedup_adjacent(sorted.deep_view().subrange(0, 0)) =~= out.deep_view());
    }
    while k < sn
        invariant
            0 <= k <= sn,
            sn == sorted.len(),
            out.deep_view() == dedup_adjacent(sorted.deep_view().subrange(0, k as int)),
        decreases sn - k,
    {
        proof {
            let cur = sorted.deep_view().subrange(0, k + 1);
            assert(cur.drop_last() =~= sorted.deep_view().subrange(0, k as int));
            assert(cur.last() == sorted.deep_view()[k as int]);
            if k > 0 {
                assert(cur[k - 1] == sorted.deep_view()[k - 1]);
            }
        }
        let keep: bool = if k == 0 {
            true
        } else {
            !strutil::str_eq(sorted[k].as_str(), sorted[k - 1].as_str())
        };
        if keep {
            let ghost before = out.deep_view();
            out.push(sorted[k].clone());
            proof {
                assert(out.deep_view() =~= before.push(sorted.deep_view()[k as int]));
            }
        }
        k = k + 1;
    }
    proof {
        assert(sorted.deep_view().subrange(0, sn as int) =~= sorted.deep_view());
    }
    out
}

/// What to do for one service: enable it when it is not enabled, start it
/// when it is not active.
pub fn service_plan(is_enabled: bool, is_active: bool) -> (r: (bool, bool))
    ensures
        r.0 == !is_enabled,
        r.1 == !is_active,
{
    (!is_enabled, !is_active)
}

} // verus!
