//! The feature modules a server runs: their names, which are also their
//! configuration section names, the services each serves, and the
//! configuration sections no module claims.

use vstd::prelude::*;

use crate::text::{owned, same_text};

verus! {

/// A registered module: its name, which is also its config section name and
/// its environment variable segment, and the full names of the services it
/// serves.
#[derive(Debug)]
pub struct ModuleInfo {
    pub name: String,
    pub service_names: Vec<String>,
}

/// The names of `modules`, in order.
pub open spec fn module_names(modules: Seq<ModuleInfo>) -> Seq<Seq<char>> {
    modules.map_values(|m: ModuleInfo| m.name@)
}

/// The services of `modules`, module after module.
pub open spec fn all_service_names(modules: Seq<ModuleInfo>) -> Seq<Seq<char>>
    decreases modules.len(),
{
    if modules.len() == 0 {
        Seq::empty()
    } else {
        all_service_names(modules.drop_last()) + modules.last().service_names@.map_values(
            |s: String| s@,
        )
    }
}

/// Names of every enabled module, which are also their config section names.
pub fn names(modules: &Vec<ModuleInfo>) -> (r: Vec<String>)
    ensures
        r@.map_values(|s: String| s@) == module_names(modules@),
{
    let mut r: Vec<String> = Vec::new();
    let mut i: usize = 0;
    while i < modules.len()
        invariant
            i <= modules.len(),
            r@.len() == i,
            forall|j: int| 0 <= j < i ==> (#[trigger] r@[j])@ == modules@[j].name@,
        decreases modules.len() - i,
    {
        r.push(owned(modules[i].name.as_str()));
        i = i + 1;
    }
    assert(r@.map_values(|s: String| s@) =~= module_names(modules@));
    r
}

/// Full service names of every enabled module, for health reporting.
pub fn service_names(modules: &Vec<ModuleInfo>) -> (r: Vec<String>)
    ensures
        r@.map_values(|s: String| s@) == all_service_names(modules@),
{
    let mut r: Vec<String> = Vec::new();
    let mut i: usize = 0;
    assert(modules@.take(0) =~= Seq::<ModuleInfo>::empty());
    while i < modules.len()
        invariant
            i <= modules.len(),
            r@.map_values(|s: String| s@) == all_service_names(modules@.take(i as int)),
        decreases modules.len() - i,
    {
        let services = &modules[i].service_names;
        let ghost before = r@.map_values(|s: String| s@);
        let mut k: usize = 0;
        while k < services.len()
            invariant
                k <= services.len(),
                services == &modules@[i as int].service_names,
                r@.map_values(|s: String| s@) == before + services@.take(k as int).map_values(
                    |s: String| s@,
                ),
            decreases services.len() - k,
        {
            let ghost prev = r@;
            r.push(owned(services[k].as_str()));
            proof {
                assert(services@.take(k + 1) =~= services@.take(k as int).push(services@[k as int]));
                assert(r@.map_values(|s: String| s@) =~= prev.map_values(|s: String| s@).push(
                    services@[k as int]@,
                ));
                assert(services@.take(k + 1).map_values(|s: String| s@) =~= services@.take(
                    k as int,
                ).map_values(|s: String| s@).push(services@[k as int]@));
            }
            k = k + 1;
        }
        proof {
            assert(services@.take(services@.len() as int) =~= services@);
            assert(modules@.take(i + 1).drop_last() =~= modules@.take(i as int));
            assert(modules@.take(i + 1).last() == modules@[i as int]);
        }
        i = i + 1;
    }
    assert(modules@.take(modules@.len() as int) =~= modules@);
    r
}

/// The top-level sections of `keys` that nobody claims: neither `server`,
/// `telemetry`, nor a module's name, in their order.
pub open spec fn unclaimed(keys: Seq<Seq<char>>, modules: Seq<Seq<char>>) -> Seq<Seq<char>> {
    keys.filter(
        |k: Seq<char>| k != "server"@ && k != "telemetry"@ && !modules.contains(k),
    )
}

/// The sections of the configuration tree with top-level keys `keys` that
/// no enabled consumer claims, to be warned about.
pub fn unknown_sections(keys: &Vec<String>, modules: &Vec<ModuleInfo>) -> (r: Vec<String>)
    ensures
        r@.map_values(|s: String| s@) == unclaimed(
            keys@.map_values(|s: String| s@),
            module_names(modules@),
        ),
{
    let ghost kv = keys@.map_values(|s: String| s@);
    let ghost mv = module_names(modules@);
    let ghost pred = |k: Seq<char>| k != "server"@ && k != "telemetry"@ && !mv.contains(k);
    let mut r: Vec<String> = Vec::new();
    let mut i: usize = 0;
    proof {
        reveal_strlit("server");
        reveal_strlit("telemetry");
        assert(kv.take(0) =~= Seq::<Seq<char>>::empty());
        assert(Seq::<Seq<char>>::empty().filter(pred) =~= Seq::<Seq<char>>::empty());
    }
    while i < keys.len()
        invariant
            i <= keys.len(),
            kv == keys@.map_values(|s: String| s@),
            mv == module_names(modules@),
            pred == (|k: Seq<char>| k != "server"@ && k != "telemetry"@ && !mv.contains(k)),
            r@.map_values(|s: String| s@) == kv.take(i as int).filter(pred),
        decreases keys.len() - i,
    {
        let key = keys[i].as_str();
        let mut claimed = same_text(key, "server") || same_text(key, "telemetry");
        let mut m: usize = 0;
        while m < modules.len()
            invariant
                m <= modules.len(),
                mv == module_names(modules@),
                claimed == (key@ == "server"@ || key@ == "telemetry"@ || exists|j: int|
                    0 <= j < m && mv[j] == key@),
            decreases modules.len() - m,
        {
            assert(mv[m as int] == modules@[m as int].name@);
            if same_text(modules[m].name.as_str(), key) {
                claimed = true;
            }
            m = m + 1;
        }
        let ghost prev = r@;
        proof {
            assert(kv.take(i + 1).drop_last() =~= kv.take(i as int));
            assert(kv[i as int] == key@);
            reveal(Seq::filter);
            if mv.contains(key@) {
                let j = choose|j: int| 0 <= j < mv.len() && mv[j] == key@;
            }
        }
        if !claimed {
            r.push(owned(key));
            assert(r@.map_values(|s: String| s@) =~= prev.map_values(|s: String| s@).push(key@));
        }
        i = i + 1;
    }
    assert(kv.take(keys.len() as int) =~= kv);
    r
}

} // verus!
