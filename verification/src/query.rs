//! The query operations over a decoded registry: list projection, exact
//! lookup by name, capped case-insensitive substring search, and the summary.

use vstd::prelude::*;

use crate::data::{
    ItemView, Module, ModuleListItem, ModuleView, Registry, RegistryInfo, project_module,
};
use crate::strings::{contains_sub, is_substring_of, lower_of, lowercase};

verus! {

/// Whether a module matches a search query: the folded query occurs in the
/// folded name, or the module has metadata and the folded query occurs in the
/// folded description. Absent metadata never matches.
pub open spec fn module_matches(m: ModuleView, query: Seq<char>) -> bool {
    ||| is_substring_of(lower_of(query), lower_of(m.name))
    ||| (m.description matches Some(d) && is_substring_of(lower_of(query), lower_of(d)))
}

/// The projections of the first `cap` modules that match `query`, in source
/// order.
pub open spec fn search_results(ms: Seq<ModuleView>, query: Seq<char>, cap: nat) -> Seq<ItemView>
    decreases ms.len(),
{
    if cap == 0 || ms.len() == 0 {
        Seq::empty()
    } else if module_matches(ms[0], query) {
        seq![project_module(ms[0])] + search_results(ms.drop_first(), query, (cap - 1) as nat)
    } else {
        search_results(ms.drop_first(), query, cap)
    }
}

/// The first module whose name equals `name` exactly, if any.
pub open spec fn lookup(ms: Seq<ModuleView>, name: Seq<char>) -> Option<ModuleView>
    decreases ms.len(),
{
    if ms.len() == 0 {
        None
    } else if ms[0].name == name {
        Some(ms[0])
    } else {
        lookup(ms.drop_first(), name)
    }
}

/// The views of a sequence of list items.
pub open spec fn items_view(items: Seq<ModuleListItem>) -> Seq<ItemView> {
    items.map_values(|it: ModuleListItem| it@)
}

/// The listed shape of one module.
fn project_item(m: &Module) -> (r: ModuleListItem)
    ensures
        r@ == project_module(m@),
{
    let latest_version = if m.versions.len() == 0 {
        String::new()
    } else {
        m.versions[0].version.clone()
    };
    let description = match &m.repository_metadata {
        Some(md) => md.description.clone(),
        None => String::new(),
    };
    ModuleListItem { name: m.name.clone(), latest_version, description }
}

/// Every module of the registry, projected, in source order.
pub fn list_modules(reg: &Registry) -> (r: Vec<ModuleListItem>)
    ensures
        r@.len() == reg@.modules.len(),
        forall|i: int| 0 <= i < r@.len() ==> r@[i]@ == project_module(reg@.modules[i]),
{
    let mut out: Vec<ModuleListItem> = Vec::new();
    let mut i: usize = 0;
    while i < reg.modules.len()
        invariant
            i <= reg.modules.len(),
            out@.len() == i as int,
            forall|k: int| 0 <= k < i as int ==> out@[k]@ == project_module(reg@.modules[k]),
        decreases reg.modules.len() - i,
    {
        let item = project_item(&reg.modules[i]);
        assert(reg@.modules[i as int] == reg.modules@[i as int]@);
        out.push(item);
        i += 1;
    }
    out
}

/// The first module named exactly `name` (case-sensitive), or nothing.
pub fn get_by_name<'a>(reg: &'a Registry, name: &String) -> (r: Option<&'a Module>)
    ensures
        match r {
            Some(m) => lookup(reg@.modules, name@) == Some(m@),
            None => lookup(reg@.modules, name@) is None,
        },
{
    let ghost ms = reg@.modules;
    proof {
        assert(ms.skip(0) =~= ms);
    }
    let mut i: usize = 0;
    while i < reg.modules.len()
        invariant
            i <= reg.modules.len(),
            ms == reg@.modules,
            lookup(ms, name@) == lookup(ms.skip(i as int), name@),
        decreases reg.modules.len() - i,
    {
        proof {
            assert(ms.skip(i as int).len() > 0);
            assert(ms.skip(i as int)[0] == ms[i as int]);
            assert(ms.skip(i as int).drop_first() =~= ms.skip(i as int + 1));
            assert(ms[i as int] == reg.modules@[i as int]@);
        }
        if reg.modules[i].name == *name {
            return Some(&reg.modules[i]);
        }
        i += 1;
    }
    proof {
        assert(ms.skip(reg.modules@.len() as int) =~= Seq::<ModuleView>::empty());
    }
    None
}

/// The first 20 modules matching `query`, projected, in source
/// order. The match is a case-insensitive substring test against the name and
/// against the metadata description; the empty query matches every module.
pub fn search(reg: &Registry, query: &str) -> (r: Vec<ModuleListItem>)
    ensures
        items_view(r@) == search_results(reg@.modules, query@, 20),
{
    let ghost ms = reg@.modules;
    let q = lowercase(query);
    let mut out: Vec<ModuleListItem> = Vec::new();
    proof {
        assert(ms.skip(0) =~= ms);
        assert(items_view(out@) + search_results(ms, query@, 20) =~= search_results(
            ms,
            query@,
            20,
        ));
    }
    let mut i: usize = 0;
    while i < reg.modules.len() && out.len() < 20
        invariant
            i <= reg.modules.len(),
            out@.len() <= 20,
            ms == reg@.modules,
            q@ == lower_of(query@),
            search_results(ms, query@, 20) == items_view(out@) + search_results(
                ms.skip(i as int),
                query@,
                (20 - out@.len()) as nat,
            ),
        decreases reg.modules.len() - i,
    {
        let m = &reg.modules[i];
        proof {
            assert(ms.skip(i as int).len() > 0);
            assert(ms.skip(i as int)[0] == ms[i as int]);
            assert(ms.skip(i as int).drop_first() =~= ms.skip(i as int + 1));
            assert(ms[i as int] == reg.modules@[i as int]@);
        }
        let name_l = lowercase(m.name.as_str());
        let matched = if contains_sub(name_l.as_str(), q.as_str()) {
            true
        } else {
            match &m.repository_metadata {
                Some(md) => {
                    let desc_l = lowercase(md.description.as_str());
                    contains_sub(desc_l.as_str(), q.as_str())
                },
                None => false,
            }
        };
        assert(matched == module_matches(ms[i as int], query@));
        if matched {
            let item = project_item(m);
            let ghost old_out = out@;
            out.push(item);
            proof {
                assert(items_view(out@) =~= items_view(old_out).push(project_module(
                    ms[i as int],
                )));
                assert(items_view(old_out) + (seq![project_module(ms[i as int])]
                    + search_results(
                    ms.skip(i as int + 1),
                    query@,
                    (20 - out@.len()) as nat,
                )) =~= items_view(out@) + search_results(
                    ms.skip(i as int + 1),
                    query@,
                    (20 - out@.len()) as nat,
                ));
            }
        }
        i += 1;
    }
    proof {
        if out@.len() == 20 {
            assert(search_results(ms.skip(i as int), query@, 0) =~= Seq::<ItemView>::empty());
        } else {
            assert(ms.skip(reg.modules@.len() as int) =~= Seq::<ModuleView>::empty());
        }
        assert(items_view(out@) + Seq::<ItemView>::empty() =~= items_view(out@));
    }
    out
}

/// The registry summary: its source location and its module count.
pub fn registry_info(reg: &Registry) -> (r: RegistryInfo)
    ensures
        r.registry_url@ == reg@.url,
        r.module_count == reg@.modules.len(),
{
    RegistryInfo { registry_url: reg.registry_url.clone(), module_count: reg.modules.len() }
}

/// Law: a query whose folding is empty matches every module — the empty
/// sequence is a substring of every sequence — so searching for it returns
/// the first modules of the registry, capped. This is a corollary of the
/// matching rule, not a special case of it.
pub proof fn lemma_empty_folded_query_matches(m: ModuleView, query: Seq<char>)
    requires
        lower_of(query).len() == 0,
    ensures
        module_matches(m, query),
{
    let needle = lower_of(query);
    let hay = lower_of(m.name);
    assert(hay.subrange(0, 0 + needle.len() as int) =~= needle);
    assert(is_substring_of(needle, hay));
}

/// Law: lookup is exact. It returns nothing precisely when no module bears
/// the name; otherwise it returns a module that bears the name and stands
/// before every other module that does.
pub proof fn lemma_lookup_is_first_match(ms: Seq<ModuleView>, name: Seq<char>)
    ensures
        match lookup(ms, name) {
            Some(m) => exists|i: int|
                {
                    &&& 0 <= i < ms.len()
                    &&& #[trigger] ms[i] == m
                    &&& ms[i].name == name
                    &&& forall|j: int| 0 <= j < i ==> (#[trigger] ms[j]).name != name
                },
            None => forall|i: int| 0 <= i < ms.len() ==> (#[trigger] ms[i]).name != name,
        },
    decreases ms.len(),
{
    if ms.len() == 0 {
    } else if ms[0].name == name {
        let i = 0int;
        assert(0 <= i < ms.len() && ms[i] == ms[0] && ms[i].name == name && forall|j: int|
            0 <= j < i ==> (#[trigger] ms[j]).name != name);
    } else {
        let rest = ms.drop_first();
        lemma_lookup_is_first_match(rest, name);
        assert(forall|k: int| 0 <= k < rest.len() ==> #[trigger] rest[k] == ms[k + 1]);
        match lookup(ms, name) {
            Some(m) => {
                let ir = choose|ir: int|
                    {
                        &&& 0 <= ir < rest.len()
                        &&& #[trigger] rest[ir] == m
                        &&& rest[ir].name == name
                        &&& forall|j: int| 0 <= j < ir ==> (#[trigger] rest[j]).name != name
                    };
                let i = ir + 1;
                assert(ms[i] == m && ms[i].name == name);
                assert(forall|j: int| 1 <= j < i ==> (#[trigger] ms[j]).name == rest[j - 1].name);
                assert(forall|j: int| 0 <= j < i ==> (#[trigger] ms[j]).name != name);
            },
            None => {
                assert(forall|i: int|
                    1 <= i < ms.len() ==> (#[trigger] ms[i]).name == rest[i - 1].name);
            },
        }
    }
}

/// Law: a search never returns more than `cap` results.
pub proof fn lemma_search_cap(ms: Seq<ModuleView>, query: Seq<char>, cap: nat)
    ensures
        search_results(ms, query, cap).len() <= cap,
    decreases ms.len(),
{
    if cap == 0 || ms.len() == 0 {
    } else if module_matches(ms[0], query) {
        lemma_search_cap(ms.drop_first(), query, (cap - 1) as nat);
    } else {
        lemma_search_cap(ms.drop_first(), query, cap);
    }
}

/// Law: when every module matches, a search returns exactly the first `cap`
/// modules (all of them when fewer), projected, in source order.
pub proof fn lemma_search_all_matching(ms: Seq<ModuleView>, query: Seq<char>, cap: nat)
    requires
        forall|i: int| 0 <= i < ms.len() ==> module_matches(ms[i], query),
    ensures
        search_results(ms, query, cap) == (if ms.len() <= cap {
            ms
        } else {
            ms.take(cap as int)
        }).map_values(|m: ModuleView| project_module(m)),
    decreases ms.len(),
{
    let f = |m: ModuleView| project_module(m);
    if cap == 0 || ms.len() == 0 {
        assert(search_results(ms, query, cap) =~= (if ms.len() <= cap {
            ms
        } else {
            ms.take(cap as int)
        }).map_values(f));
    } else {
        let rest = ms.drop_first();
        assert(forall|i: int| 0 <= i < rest.len() ==> rest[i] == ms[i + 1]);
        lemma_search_all_matching(rest, query, (cap - 1) as nat);
        let sub = if rest.len() <= (cap - 1) as nat {
            rest
        } else {
            rest.take(cap - 1)
        };
        assert(search_results(ms, query, cap) == seq![f(ms[0])] + sub.map_values(f));
        assert(seq![f(ms[0])] + sub.map_values(f) =~= (if ms.len() <= cap {
            ms
        } else {
            ms.take(cap as int)
        }).map_values(f));
    }
}

} // verus!
