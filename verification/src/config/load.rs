//! Where the file layers come from, and the environment snapshot that the
//! override layers read.

use vstd::prelude::*;

use crate::config::env::{ConfigError, EnvSnapshot};
use crate::text::{owned, same_text};

verus! {

/// The configuration file to read, and whether it was named explicitly.
#[derive(Debug, PartialEq, Eq)]
pub struct ConfigPath {
    pub path: String,
    pub explicit: bool,
}

/// The file named by `QUIZ_ARENA_CONFIG_PATH` when it is set, else
/// `config.toml`. `var` is that variable: absent, not valid Unicode, or its
/// text.
pub fn config_path(var: Option<Option<String>>) -> (r: Result<ConfigPath, ConfigError>)
    ensures
        match var {
            Some(Some(p)) => r matches Ok(c) && c.path@ == p@ && c.explicit,
            None => r matches Ok(c) && c.path@ == "config.toml"@ && !c.explicit,
            Some(None) => r matches Err(ConfigError::NotUnicode { var }) && var@
                == "QUIZ_ARENA_CONFIG_PATH"@,
        },
{
    match var {
        Some(Some(path)) => Ok(ConfigPath { path, explicit: true }),
        None => Ok(ConfigPath { path: owned("config.toml"), explicit: false }),
        Some(None) => Err(ConfigError::NotUnicode { var: owned("QUIZ_ARENA_CONFIG_PATH") }),
    }
}

impl ConfigPath {
    /// Whether the file must be loaded: a file that exists always is, and an
    /// explicitly named one must exist. Only the default path may be absent.
    pub fn required(&self, present: bool) -> (b: bool)
        ensures
            b == (self.explicit || present),
    {
        self.explicit || present
    }
}

/// The inline TOML layer from `QUIZ_ARENA_CONFIG`: absent, or its text.
pub fn inline_config(var: Option<Option<String>>) -> (r: Result<Option<String>, ConfigError>)
    ensures
        match var {
            Some(Some(t)) => r matches Ok(Some(s)) && s@ == t@,
            None => r matches Ok(None),
            Some(None) => r matches Err(ConfigError::NotUnicode { var }) && var@
                == "QUIZ_ARENA_CONFIG"@,
        },
{
    match var {
        Some(Some(text)) => Ok(Some(text)),
        None => Ok(None),
        Some(None) => Err(ConfigError::NotUnicode { var: owned("QUIZ_ARENA_CONFIG") }),
    }
}

/// Whether a variable reaches the override layers: its name is valid
/// Unicode and it is not one of the two that name the file layers.
pub open spec fn kept_in_snapshot(name: Option<String>) -> bool {
    match name {
        Some(n) => n@ != "QUIZ_ARENA_CONFIG_PATH"@ && n@ != "QUIZ_ARENA_CONFIG"@,
        None => false,
    }
}

/// The variables that reach the override layers, in order, each with its
/// value, `None` where the value is not valid Unicode.
pub open spec fn snapshot_of(vars: Seq<(Option<String>, Option<String>)>) -> Seq<
    (Seq<char>, Option<Seq<char>>),
>
    decreases vars.len(),
{
    if vars.len() == 0 {
        Seq::empty()
    } else {
        let rest = snapshot_of(vars.drop_last());
        let v = vars.last();
        if kept_in_snapshot(v.0) {
            rest.push(
                (
                    v.0->0@,
                    match v.1 {
                        Some(s) => Some(s@),
                        None => None,
                    },
                ),
            )
        } else {
            rest
        }
    }
}

/// The environment the override layers read: every variable whose name is
/// valid Unicode, including standard alias variables such as
/// `OTEL_EXPORTER_OTLP_ENDPOINT`, but not the two that name the file layers.
/// Each entry is a name, `None` where it is not valid Unicode, and a value,
/// `None` where it is not valid Unicode. A later variable of a name replaces
/// an earlier one.
pub fn environment_snapshot(vars: Vec<(Option<String>, Option<String>)>) -> (e: EnvSnapshot)
    ensures
        e@ == crate::config::env::keep_last(snapshot_of(vars@)),
{
    let ghost all = vars@;
    let mut kept: Vec<(String, Option<String>)> = Vec::new();
    let mut rest = vars;
    let ghost mut k: int = 0;
    proof {
        reveal_strlit("QUIZ_ARENA_CONFIG_PATH");
        reveal_strlit("QUIZ_ARENA_CONFIG");
        assert(all.take(0) =~= Seq::empty());
    }
    while rest.len() > 0
        invariant
            0 <= k <= all.len(),
            rest@ == all.skip(k),
            kept@.len() == snapshot_of(all.take(k)).len(),
            forall|i: int|
                0 <= i < kept@.len() ==> crate::config::env::env_pair_view(#[trigger] kept@[i])
                    == snapshot_of(all.take(k))[i],
        decreases rest.len(),
    {
        let (name, value) = rest.remove(0);
        assert(all[k] == (name, value));
        let ghost before = kept@;
        let keep = match &name {
            Some(n) => !same_text(n.as_str(), "QUIZ_ARENA_CONFIG_PATH") && !same_text(
                n.as_str(),
                "QUIZ_ARENA_CONFIG",
            ),
            None => false,
        };
        proof {
            assert(all.take(k + 1).drop_last() =~= all.take(k));
            assert(all.take(k + 1).last() == all[k]);
        }
        if keep {
            match name {
                Some(n) => {
                    kept.push((n, value));
                },
                None => {},
            }
        }
        proof {
            k = k + 1;
        }
        assert(rest@ =~= all.skip(k));
    }
    assert(all.take(k) =~= all);
    assert(kept@.map_values(|p: (String, Option<String>)| crate::config::env::env_pair_view(p))
        =~= snapshot_of(all));
    let e = EnvSnapshot::new(kept);
    e
}

} // verus!
