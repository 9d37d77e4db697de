//! Resolving one configuration section: the defaults overlaid with the file
//! layers, then each environment override in turn, aliases first and the
//! derived `QUIZ_ARENA_*` names after, so that a derived name overwrites an
//! alias for the same field.
//!
//! Every override is checked against the section's shape before the next one
//! applies, so that a value the field rejects is reported under the variable
//! that set it. That check belongs to the caller, so resolution is a state
//! machine: [`SectionResolution::begin`] overlays the file layers, and each
//! [`SectionResolution::step`] applies one override and says what happened.

use vstd::prelude::*;

use crate::config::env::{
    ClaimRegistry, ConfigError, EnvSnapshot, EnvValueError, env_var_name, parse_env_value,
    path_text,
};
use crate::config::value::{
    ConfigValue, ValueView, copy_path, distinct_leaf_paths, insert_at_path, leaf_paths, merge,
};
use crate::text::{owned, same_text};

verus! {

/// A configuration error, with its texts seen as sequences.
pub enum ConfigErrorView {
    SectionNotTable { section: Seq<char> },
    UnknownAliasField { alias: Seq<char>, field: Seq<char>, section: Seq<char> },
    NotUnicode { var: Seq<char> },
    InvalidEnvValue { var: Seq<char>, reason: EnvValueError },
    Ambiguous { var: Seq<char>, existing: Seq<char>, target: Seq<char> },
}

impl View for ConfigError {
    type V = ConfigErrorView;

    open spec fn view(&self) -> ConfigErrorView {
        match self {
            ConfigError::SectionNotTable { section } => ConfigErrorView::SectionNotTable {
                section: section@,
            },
            ConfigError::UnknownAliasField { alias, field, section } =>
                ConfigErrorView::UnknownAliasField {
                alias: alias@,
                field: field@,
                section: section@,
            },
            ConfigError::NotUnicode { var } => ConfigErrorView::NotUnicode { var: var@ },
            ConfigError::InvalidEnvValue { var, reason } => ConfigErrorView::InvalidEnvValue {
                var: var@,
                reason: *reason,
            },
            ConfigError::Ambiguous { var, existing, target } => ConfigErrorView::Ambiguous {
                var: var@,
                existing: existing@,
                target: target@,
            },
        }
    }
}

/// What one step of a resolution did.
#[derive(Debug, PartialEq, Eq)]
pub enum SectionStep {
    /// The variable `var` is set, and its value now stands in the tree: the
    /// caller checks that the tree still fits the section.
    Applied { var: String },
    /// The variable `var` is not set; the tree is unchanged.
    Unset { var: String },
    /// Every override has been applied.
    Finished,
    /// The resolution failed.
    Failed(ConfigError),
}

/// What one step did, with its texts seen as sequences.
pub enum StepView {
    Applied { var: Seq<char> },
    Unset { var: Seq<char> },
    Finished,
    Failed(ConfigErrorView),
}

impl View for SectionStep {
    type V = StepView;

    open spec fn view(&self) -> StepView {
        match self {
            SectionStep::Applied { var } => StepView::Applied { var: var@ },
            SectionStep::Unset { var } => StepView::Unset { var: var@ },
            SectionStep::Finished => StepView::Finished,
            SectionStep::Failed(e) => StepView::Failed(e@),
        }
    }
}

/// Where a section's resolution stands.
pub struct SectionState {
    pub section: Seq<char>,
    /// The tree resolved so far.
    pub tree: ValueView,
    /// The leaves of the section's defaults: each field's path, with its
    /// default value as the template its variables are read against.
    pub leaves: Seq<(Seq<Seq<char>>, ValueView)>,
    /// The alias variables: each field path, written with dots, and the
    /// variable that overrides it.
    pub aliases: Seq<(Seq<char>, Seq<char>)>,
    /// How many aliases have been applied.
    pub next_alias: int,
    /// How many derived names have been applied.
    pub next_leaf: int,
}

/// The index of the first leaf whose path, written with dots, is `field`.
pub open spec fn field_index(leaves: Seq<(Seq<Seq<char>>, ValueView)>, field: Seq<char>) -> Option<
    int,
>
    decreases leaves.len(),
{
    if leaves.len() == 0 {
        None
    } else if crate::config::env::dotted(leaves[0].0) == field {
        Some(0)
    } else {
        match field_index(leaves.drop_first(), field) {
            Some(i) => Some(i + 1),
            None => None,
        }
    }
}

/// What applying the variable `var` to the field at `path` does: the tree,
/// the claims, and the step's report.
pub open spec fn apply_override(
    s: SectionState,
    claims: Seq<(Seq<char>, Seq<char>)>,
    env: Seq<(Seq<char>, Option<Seq<char>>)>,
    var: Seq<char>,
    path: Seq<Seq<char>>,
    template: ValueView,
) -> (ValueView, Seq<(Seq<char>, Seq<char>)>, StepView) {
    let target = crate::config::env::claim_target(s.section, path);
    let (after, conflict) = crate::config::env::claim_result(claims, var, target);
    match conflict {
        Some(existing) => (
            s.tree,
            after,
            StepView::Failed(ConfigErrorView::Ambiguous { var, existing, target }),
        ),
        None => match crate::config::env::first_value(env, var) {
            None => (s.tree, after, StepView::Unset { var }),
            Some(None) => (s.tree, after, StepView::Failed(ConfigErrorView::NotUnicode { var })),
            Some(Some(raw)) => match crate::config::env::env_value_of(raw, template) {
                Err(reason) => (
                    s.tree,
                    after,
                    StepView::Failed(ConfigErrorView::InvalidEnvValue { var, reason }),
                ),
                Ok(v) => (
                    crate::config::value::inserted(s.tree, path, v),
                    after,
                    StepView::Applied { var },
                ),
            },
        },
    }
}

/// One step of a resolution: the next alias while any is left, then the
/// derived name of the next leaf, then nothing.
pub open spec fn section_step(
    s: SectionState,
    claims: Seq<(Seq<char>, Seq<char>)>,
    env: Seq<(Seq<char>, Option<Seq<char>>)>,
) -> (SectionState, Seq<(Seq<char>, Seq<char>)>, StepView) {
    if s.next_alias < s.aliases.len() {
        let field = s.aliases[s.next_alias].0;
        let var = s.aliases[s.next_alias].1;
        let moved = SectionState { next_alias: s.next_alias + 1, ..s };
        match field_index(s.leaves, field) {
            None => (
                moved,
                claims,
                StepView::Failed(
                    ConfigErrorView::UnknownAliasField { alias: var, field, section: s.section },
                ),
            ),
            Some(j) => {
                let (tree, after, report) = apply_override(
                    s,
                    claims,
                    env,
                    var,
                    s.leaves[j].0,
                    s.leaves[j].1,
                );
                (SectionState { tree, ..moved }, after, report)
            },
        }
    } else if s.next_leaf < s.leaves.len() {
        let path = s.leaves[s.next_leaf].0;
        let var = crate::config::env::derived_var_name(s.section, path);
        let moved = SectionState { next_leaf: s.next_leaf + 1, ..s };
        let (tree, after, report) = apply_override(
            s,
            claims,
            env,
            var,
            path,
            s.leaves[s.next_leaf].1,
        );
        (SectionState { tree, ..moved }, after, report)
    } else {
        (s, claims, StepView::Finished)
    }
}

/// The resolution of one section.
pub struct SectionResolution {
    section: String,
    tree: ConfigValue,
    leaves: Vec<(Vec<String>, ConfigValue)>,
    aliases: Vec<(String, String)>,
    next_alias: usize,
    next_leaf: usize,
}

/// The view of the alias pairs.
pub open spec fn aliases_view(aliases: Seq<(String, String)>) -> Seq<(Seq<char>, Seq<char>)> {
    aliases.map_values(|a: (String, String)| (a.0@, a.1@))
}

impl View for SectionResolution {
    type V = SectionState;

    closed spec fn view(&self) -> SectionState {
        SectionState {
            section: self.section@,
            tree: self.tree@,
            leaves: crate::config::value::leaf_list_view(self.leaves@),
            aliases: aliases_view(self.aliases@),
            next_alias: self.next_alias as int,
            next_leaf: self.next_leaf as int,
        }
    }
}

proof fn lemma_field_index<T>(leaves: Seq<(Seq<Seq<char>>, ValueView)>, field: Seq<char>, i: int)
    requires
        0 <= i <= leaves.len(),
        forall|j: int|
            0 <= j < i ==> crate::config::env::dotted((#[trigger] leaves[j]).0) != field,
    ensures
        i < leaves.len() && crate::config::env::dotted(leaves[i].0) == field ==> field_index(
            leaves,
            field,
        ) == Some(i),
        i == leaves.len() ==> field_index(leaves, field) is None,
    decreases i,
{
    if i > 0 {
        assert forall|j: int| 0 <= j < i - 1 implies crate::config::env::dotted(
            (#[trigger] leaves.drop_first()[j]).0,
        ) != field by {
            assert(leaves.drop_first()[j] == leaves[j + 1]);
        }
        lemma_field_index::<T>(leaves.drop_first(), field, i - 1);
    }
}

impl SectionResolution {
    /// Whether the resolution is well formed: counters within bounds, and
    /// the tree a table wherever a leaf's path needs one.
    #[verifier::type_invariant]
    closed spec fn wf(self) -> bool {
        &&& forall|j: int| 0 <= j < self.leaves@.len() ==> !((#[trigger] self.leaves@[j]).1@ is Table)
        &&& self.next_alias <= self.aliases.len()
        &&& self.next_leaf <= self.leaves.len()
        &&& ((self.tree@ is Table && forall|j: int|
            0 <= j < self.leaves@.len() ==> (#[trigger] self.leaves@[j]).0.len() > 0) || forall|
            j: int,
        |
            0 <= j < self.leaves@.len() ==> (#[trigger] self.leaves@[j]).0.len() == 0)
    }

    /// Starts resolving `section`: its defaults `template`, overlaid with
    /// the file layers' value `file` when they hold the section. The file must
    /// hold a table where the defaults are one. `aliases` pairs field paths,
    /// dots separating nested segments, with the variables that override
    /// them. When the defaults' tables name each entry once, the fields
    /// lead to different places.
    pub fn begin(
        section: &str,
        template: ConfigValue,
        file: Option<ConfigValue>,
        aliases: Vec<(String, String)>,
    ) -> (r: Result<SectionResolution, ConfigError>)
        ensures
            match file {
                Some(v) if template@ is Table && !(v@ is Table) => r matches Err(e) && e@
                    == ConfigErrorView::SectionNotTable { section: section@ },
                _ => r matches Ok(res) && res@ == SectionState {
                    section: section@,
                    tree: match file {
                        Some(v) => crate::config::value::merged(template@, v@),
                        None => template@,
                    },
                    leaves: crate::config::value::leaves(template@, Seq::empty()),
                    aliases: aliases_view(aliases@),
                    next_alias: 0,
                    next_leaf: 0,
                } && (crate::config::value::unique_throughout(template@) ==> distinct_leaf_paths(
                    res@.leaves,
                )),
            },
    {
        let mut tree = template.duplicate();
        match file {
            Some(value) => {
                if template.is_table() && !value.is_table() {
                    return Err(ConfigError::SectionNotTable { section: owned(section) });
                }
                merge(&mut tree, value);
            },
            None => {},
        }
        let mut prefix: Vec<String> = Vec::new();
        let mut leaves: Vec<(Vec<String>, ConfigValue)> = Vec::new();
        leaf_paths(&template, &mut prefix, &mut leaves);
        proof {
            assert(crate::config::value::path_view(Seq::<String>::empty()) =~= Seq::empty());
            assert(crate::config::value::leaf_list_view(Seq::empty()) =~= Seq::empty());
            let lv = crate::config::value::leaf_list_view(leaves@);
            assert(lv =~= crate::config::value::leaves(template@, Seq::empty()));
            crate::config::value::lemma_leaf_path_lengths(template@, Seq::empty());
            if crate::config::value::unique_throughout(template@) {
                crate::config::value::lemma_leaves_distinct(template@, Seq::empty());
            }
            assert forall|j: int| 0 <= j < leaves@.len() implies (#[trigger] leaves@[j]).0.len()
                == lv[j].0.len() by {
                assert(lv[j] == (crate::config::value::path_view(leaves@[j].0@), leaves@[j].1@));
            }
            assert forall|j: int| 0 <= j < leaves@.len() implies !((#[trigger] leaves@[j]).1@ is Table) by {
                assert(lv[j] == (crate::config::value::path_view(leaves@[j].0@), leaves@[j].1@));
                assert(lv[j] == crate::config::value::leaves(template@, Seq::empty())[j]);
            }
            if !(template@ is Table) {
                assert(crate::config::value::leaves(template@, Seq::empty()) == seq![
                    (Seq::<Seq<char>>::empty(), template@),
                ]);
                assert forall|j: int| 0 <= j < leaves@.len() implies (
                #[trigger] leaves@[j]).0.len() == 0 by {
                    assert(lv[j].0.len() == 0);
                }
            } else {
                assert forall|j: int| 0 <= j < leaves@.len() implies (
                #[trigger] leaves@[j]).0.len() > 0 by {
                    assert(lv[j] == crate::config::value::leaves(template@, Seq::empty())[j]);
                }
            }
        }
        let r = SectionResolution {
            section: owned(section),
            tree,
            leaves,
            aliases,
            next_alias: 0,
            next_leaf: 0,
        };
        Ok(r)
    }

    /// The tree resolved so far.
    pub fn tree(&self) -> (t: &ConfigValue)
        ensures
            t@ == self@.tree,
    {
        &self.tree
    }

    /// Ends the resolution, handing over the resolved tree.
    pub fn into_tree(self) -> (t: ConfigValue)
        ensures
            t@ == self@.tree,
    {
        self.tree
    }

    /// Applies the variable `var` to the field at leaf `j`.
    fn apply(
        &mut self,
        claims: &mut ClaimRegistry,
        env: &EnvSnapshot,
        var: String,
        j: usize,
    ) -> (r: SectionStep)
        requires
            j < old(self).leaves.len(),
        ensures
            final(self).section == old(self).section,
            final(self).leaves == old(self).leaves,
            final(self).aliases == old(self).aliases,
            final(self).next_alias == old(self).next_alias,
            final(self).next_leaf == old(self).next_leaf,
            ({
                let (tree, after, report) = apply_override(
                    old(self)@,
                    old(claims)@,
                    env@,
                    var@,
                    old(self)@.leaves[j as int].0,
                    old(self)@.leaves[j as int].1,
                );
                &&& final(self)@.tree == tree
                &&& final(claims)@ == after
                &&& r@ == report
            }),
    {
        let ghost lv = self@.leaves;
        proof {
            use_type_invariant(&*self);
            assert(lv[j as int] == (
                crate::config::value::path_view(self.leaves@[j as int].0@),
                self.leaves@[j as int].1@,
            ));
        }
        match claims.claim(var.as_str(), self.section.as_str(), &self.leaves[j].0) {
            Err(e) => {
                return SectionStep::Failed(e);
            },
            Ok(()) => {},
        }
        match env.get(var.as_str()) {
            None => SectionStep::Unset { var },
            Some(None) => SectionStep::Failed(ConfigError::NotUnicode { var }),
            Some(Some(raw)) => {
                match parse_env_value(raw.as_str(), &self.leaves[j].1) {
                    Err(reason) => SectionStep::Failed(ConfigError::InvalidEnvValue { var, reason }),
                    Ok(value) => {
                        let path = copy_path(&self.leaves[j].0);
                        let mut tree = ConfigValue::Table(Vec::new());
                        proof {
                            assert(tree@ == ValueView::Table(Seq::empty())) by {
                                crate::config::value::lemma_entries_view(
                                    Seq::<(String, ConfigValue)>::empty(),
                                );
                            }
                        }
                        std::mem::swap(&mut tree, &mut self.tree);
                        insert_at_path(&mut tree, &path, value);
                        proof {
                            if self.leaves@[j as int].0.len() > 0 {
                                assert(tree@ is Table);
                            }
                        }
                        self.tree = tree;
                        SectionStep::Applied { var }
                    },
                }
            },
        }
    }

    /// Applies the next override and reports what happened: while aliases
    /// are left, the next alias; then the derived name of the next leaf; then
    /// that all is done.
    pub fn step(&mut self, claims: &mut ClaimRegistry, env: &EnvSnapshot) -> (r: SectionStep)
        ensures
            ({
                let (s, after, report) = section_step(old(self)@, old(claims)@, env@);
                &&& final(self)@ == s
                &&& final(claims)@ == after
                &&& r@ == report
            }),
    {
        proof {
            use_type_invariant(&*self);
        }
        if self.next_alias < self.aliases.len() {
            let ghost s0 = self@;
            let field = owned(self.aliases[self.next_alias].0.as_str());
            let var = owned(self.aliases[self.next_alias].1.as_str());
            proof {
                assert(s0.aliases[self.next_alias as int] == (field@, var@));
            }
            self.next_alias = self.next_alias + 1;
            let mut j: usize = 0;
            let ghost lv = s0.leaves;
            while j < self.leaves.len()
                invariant
                    j <= self.leaves.len(),
                    lv == crate::config::value::leaf_list_view(self.leaves@),
                    lv.len() == self.leaves@.len(),
                    forall|m: int|
                        0 <= m < j ==> crate::config::env::dotted((#[trigger] lv[m]).0) != field@,
                ensures
                    j <= self.leaves.len(),
                    lv == crate::config::value::leaf_list_view(self.leaves@),
                    lv.len() == self.leaves@.len(),
                    forall|m: int|
                        0 <= m < j ==> crate::config::env::dotted((#[trigger] lv[m]).0) != field@,
                    j < self.leaves.len() ==> crate::config::env::dotted(lv[j as int].0) == field@,
                decreases self.leaves.len() - j,
            {
                let text = path_text(&self.leaves[j].0);
                assert(lv[j as int].0 == crate::config::value::path_view(self.leaves@[j as int].0@));
                if same_text(text.as_str(), field.as_str()) {
                    break;
                }
                j = j + 1;
            }
            proof {
                lemma_field_index::<()>(lv, field@, j as int);
            }
            if j == self.leaves.len() {
                assert(field_index(s0.leaves, field@) is None);
                assert(self@ == SectionState { next_alias: s0.next_alias + 1, ..s0 });
                return SectionStep::Failed(
                    ConfigError::UnknownAliasField {
                        alias: var,
                        field,
                        section: owned(self.section.as_str()),
                    },
                );
            }
            assert(field_index(s0.leaves, field@) == Some(j as int));
            assert(self@ == SectionState { next_alias: s0.next_alias + 1, ..s0 });
            self.apply(claims, env, var, j)
        } else if self.next_leaf < self.leaves.len() {
            let j = self.next_leaf;
            let var = env_var_name(self.section.as_str(), &self.leaves[j].0);
            proof {
                let lv = self@.leaves;
                assert(lv[j as int] == (
                    crate::config::value::path_view(self.leaves@[j as int].0@),
                    self.leaves@[j as int].1@,
                ));
            }
            self.next_leaf = self.next_leaf + 1;
            self.apply(claims, env, var, j)
        } else {
            SectionStep::Finished
        }
    }
}

/// A step that applies a variable writes its value at its field, where it
/// is read back, and leaves every field whose path diverges from it as it
/// was. Together with aliases applying before derived names, this is what
/// lets a derived `QUIZ_ARENA_*` name overwrite an alias for the same field.
pub proof fn law_step_writes_only_its_field(
    s: SectionState,
    claims: Seq<(Seq<char>, Seq<char>)>,
    env: Seq<(Seq<char>, Option<Seq<char>>)>,
    var: Seq<char>,
    path: Seq<Seq<char>>,
    template: ValueView,
    q: Seq<Seq<char>>,
)
    requires
        apply_override(s, claims, env, var, path, template).2 is Applied,
    ensures
        ({
            let tree = apply_override(s, claims, env, var, path, template).0;
            let raw = crate::config::env::first_value(env, var)->0->0;
            &&& crate::config::value::lookup(tree, path) == Some(
                crate::config::env::env_value_of(raw, template)->Ok_0,
            )
            &&& crate::config::value::diverge(path, q) ==> crate::config::value::lookup(tree, q)
                == crate::config::value::lookup(s.tree, q)
        }),
{
    let raw = crate::config::env::first_value(env, var)->0->0;
    let v = crate::config::env::env_value_of(raw, template)->Ok_0;
    crate::config::value::law_read_after_insert(s.tree, path, v);
    if crate::config::value::diverge(path, q) {
        crate::config::value::law_insert_keeps_other_paths(s.tree, path, v, q);
    }
}

/// A step that reports a variable unset, or fails, leaves the tree as it
/// was.
pub proof fn law_unapplied_step_keeps_tree(
    s: SectionState,
    claims: Seq<(Seq<char>, Seq<char>)>,
    env: Seq<(Seq<char>, Option<Seq<char>>)>,
)
    requires
        !(section_step(s, claims, env).2 is Applied),
    ensures
        section_step(s, claims, env).0.tree == s.tree,
{
}

/// Aliases come first: while one is left, a step applies an alias and never
/// a derived name.
pub proof fn law_aliases_before_derived_names(
    s: SectionState,
    claims: Seq<(Seq<char>, Seq<char>)>,
    env: Seq<(Seq<char>, Option<Seq<char>>)>,
)
    requires
        s.next_alias < s.aliases.len(),
    ensures
        section_step(s, claims, env).0.next_leaf == s.next_leaf,
        section_step(s, claims, env).0.next_alias == s.next_alias + 1,
{
}

} // verus!

verus! {

/// `n` steps of a resolution from `s`: the state, the claims, and whether
/// every step went without failure.
pub open spec fn run(
    s: SectionState,
    claims: Seq<(Seq<char>, Seq<char>)>,
    env: Seq<(Seq<char>, Option<Seq<char>>)>,
    n: nat,
) -> (SectionState, Seq<(Seq<char>, Seq<char>)>, bool)
    decreases n,
{
    if n == 0 {
        (s, claims, true)
    } else {
        let (s1, c1, clean) = run(s, claims, env, (n - 1) as nat);
        let (s2, c2, report) = section_step(s1, c1, env);
        (s2, c2, clean && !(report is Failed))
    }
}

/// The value the variable `var` gives a field with default `template`,
/// when it is set, valid Unicode, and fits.
pub open spec fn set_value(
    env: Seq<(Seq<char>, Option<Seq<char>>)>,
    var: Seq<char>,
    template: ValueView,
) -> Option<ValueView> {
    match crate::config::env::first_value(env, var) {
        Some(Some(raw)) => match crate::config::env::env_value_of(raw, template) {
            Ok(v) => Some(v),
            Err(_) => None,
        },
        _ => None,
    }
}

/// The value the last of the first `a` aliases that targets leaf `j` and is
/// set gives it.
pub open spec fn alias_override(
    s0: SectionState,
    env: Seq<(Seq<char>, Option<Seq<char>>)>,
    a: int,
    j: int,
) -> Option<ValueView>
    decreases a,
{
    if a <= 0 {
        None
    } else {
        let field = s0.aliases[a - 1].0;
        let var = s0.aliases[a - 1].1;
        if field_index(s0.leaves, field) == Some(j) && set_value(env, var, s0.leaves[j].1) is Some {
            set_value(env, var, s0.leaves[j].1)
        } else {
            alias_override(s0, env, a - 1, j)
        }
    }
}

/// The value leaf `j` holds once `a` aliases and `l` derived names are
/// applied: its derived variable's when that is applied and set, else the
/// last set alias's, else what the file layers and defaults gave it.
pub open spec fn resolved_value(
    s0: SectionState,
    env: Seq<(Seq<char>, Option<Seq<char>>)>,
    a: int,
    l: int,
    j: int,
) -> Option<ValueView> {
    let p = s0.leaves[j].0;
    let derived = set_value(
        env,
        crate::config::env::derived_var_name(s0.section, p),
        s0.leaves[j].1,
    );
    if j < l && derived is Some {
        derived
    } else {
        match alias_override(s0, env, a, j) {
            Some(v) => Some(v),
            None => crate::config::value::lookup(s0.tree, p),
        }
    }
}

proof fn lemma_field_index_bounds(leaves: Seq<(Seq<Seq<char>>, ValueView)>, field: Seq<char>)
    ensures
        field_index(leaves, field) matches Some(i) ==> 0 <= i < leaves.len(),
    decreases leaves.len(),
{
    if leaves.len() > 0 && crate::config::env::dotted(leaves[0].0) != field {
        lemma_field_index_bounds(leaves.drop_first(), field);
    }
}

/// One step keeps the resolved values: a step without failure leaves every
/// leaf holding what [`resolved_value`] says for the counters after it.
proof fn lemma_step_resolves(
    s0: SectionState,
    s: SectionState,
    claims: Seq<(Seq<char>, Seq<char>)>,
    env: Seq<(Seq<char>, Option<Seq<char>>)>,
    j: int,
)
    requires
        distinct_leaf_paths(s0.leaves),
        s.section == s0.section,
        s.leaves == s0.leaves,
        s.aliases == s0.aliases,
        0 <= s.next_alias <= s.aliases.len(),
        0 <= s.next_leaf <= s.leaves.len(),
        s.next_alias < s.aliases.len() ==> s.next_leaf == 0,
        0 <= j < s0.leaves.len(),
        crate::config::value::lookup(s.tree, s0.leaves[j].0) == resolved_value(
            s0,
            env,
            s.next_alias,
            s.next_leaf,
            j,
        ),
        !(section_step(s, claims, env).2 is Failed),
    ensures
        ({
            let t = section_step(s, claims, env).0;
            crate::config::value::lookup(t.tree, s0.leaves[j].0) == resolved_value(
                s0,
                env,
                t.next_alias,
                t.next_leaf,
                j,
            )
        }),
{
    let pj = s0.leaves[j].0;
    if s.next_alias < s.aliases.len() {
        let field = s.aliases[s.next_alias].0;
        let var = s.aliases[s.next_alias].1;
        lemma_field_index_bounds(s.leaves, field);
        let m = field_index(s.leaves, field)->0;
        let pm = s.leaves[m].0;
        let tm = s.leaves[m].1;
        assert(alias_override(s0, env, s.next_alias + 1, j) == if field_index(s0.leaves, field)
            == Some(j) && set_value(env, var, s0.leaves[j].1) is Some {
            set_value(env, var, s0.leaves[j].1)
        } else {
            alias_override(s0, env, s.next_alias, j)
        });
        if apply_override(s, claims, env, var, pm, tm).2 is Applied {
            law_step_writes_only_its_field(s, claims, env, var, pm, tm, pj);
            if m != j {
                assert(crate::config::value::diverge(pm, pj));
            }
        }
    } else if s.next_leaf < s.leaves.len() {
        let l = s.next_leaf;
        let pl = s.leaves[l].0;
        let tl = s.leaves[l].1;
        let var = crate::config::env::derived_var_name(s.section, pl);
        if apply_override(s, claims, env, var, pl, tl).2 is Applied {
            law_step_writes_only_its_field(s, claims, env, var, pl, tl, pj);
            if l != j {
                assert(crate::config::value::diverge(pl, pj));
            }
        }
    }
}

/// The layers of a section take precedence in order: once a resolution has
/// run without failure, each field holds the value of its derived
/// `QUIZ_ARENA_*` variable if that has been applied and is set, else that of
/// the last alias variable for it that is set, else what the file layers
/// overlaid on the defaults gave it. Fields must lead to different places,
/// as they do wherever the defaults' tables name each entry once (see
/// [`SectionResolution::begin`]).
pub proof fn law_layers_take_precedence(
    s0: SectionState,
    claims: Seq<(Seq<char>, Seq<char>)>,
    env: Seq<(Seq<char>, Option<Seq<char>>)>,
    n: nat,
)
    requires
        s0.next_alias == 0,
        s0.next_leaf == 0,
        distinct_leaf_paths(s0.leaves),
        run(s0, claims, env, n).2,
    ensures
        ({
            let s = run(s0, claims, env, n).0;
            &&& s.section == s0.section
            &&& s.leaves == s0.leaves
            &&& s.aliases == s0.aliases
            &&& 0 <= s.next_alias <= s.aliases.len()
            &&& 0 <= s.next_leaf <= s.leaves.len()
            &&& s.next_alias < s.aliases.len() ==> s.next_leaf == 0
            &&& forall|j: int|
                0 <= j < s0.leaves.len() ==> #[trigger] crate::config::value::lookup(
                    s.tree,
                    s0.leaves[j].0,
                ) == resolved_value(s0, env, s.next_alias, s.next_leaf, j)
        }),
    decreases n,
{
    if n > 0 {
        let (s1, c1, clean) = run(s0, claims, env, (n - 1) as nat);
        law_layers_take_precedence(s0, claims, env, (n - 1) as nat);
        let t = section_step(s1, c1, env).0;
        assert forall|j: int| 0 <= j < s0.leaves.len() implies #[trigger] crate::config::value::lookup(
            t.tree,
            s0.leaves[j].0,
        ) == resolved_value(s0, env, t.next_alias, t.next_leaf, j) by {
            lemma_step_resolves(s0, s1, c1, env, j);
        }
    } else {
        assert forall|j: int| 0 <= j < s0.leaves.len() implies #[trigger] crate::config::value::lookup(
            s0.tree,
            s0.leaves[j].0,
        ) == resolved_value(s0, env, 0, 0, j) by {}
    }
}


/// The value a finished resolution gives field `j` of a section whose
/// defaults are `template` and whose file layers hold `file`, layer by
/// layer from the highest: the field's derived `QUIZ_ARENA_*` variable when
/// it is set, else the last alias variable for it that is set, else the
/// file layers' value when they hold one there, else the default.
pub open spec fn layered_value(
    s0: SectionState,
    file: Option<ValueView>,
    env: Seq<(Seq<char>, Option<Seq<char>>)>,
    j: int,
) -> ValueView {
    let p = s0.leaves[j].0;
    let default = s0.leaves[j].1;
    match set_value(env, crate::config::env::derived_var_name(s0.section, p), default) {
        Some(v) => v,
        None => match alias_override(s0, env, s0.aliases.len() as int, j) {
            Some(v) => v,
            None => match file {
                Some(f) => if crate::config::value::misses(f, p) {
                    default
                } else {
                    crate::config::value::lookup(f, p)->0
                },
                None => default,
            },
        },
    }
}

/// Whether the file layers hold, at every field of the defaults, either
/// nothing or a value that is not a table, with tables along the way that
/// name their entries once: the shape a section's fields can take.
pub open spec fn file_fits_fields(
    leaves: Seq<(Seq<Seq<char>>, ValueView)>,
    file: Option<ValueView>,
) -> bool {
    match file {
        None => true,
        Some(f) => forall|j: int|
            0 <= j < leaves.len() ==> {
                let p = (#[trigger] leaves[j]).0;
                &&& crate::config::value::unique_along(f, p)
                &&& (crate::config::value::misses(f, p) || (crate::config::value::lookup(f, p) matches Some(x) && !(x is Table)))
            },
    }
}

/// A section takes each field from its highest layer: once a resolution
/// begun from the defaults `template`, whose tables name each entry once,
/// and the file layers `file` has applied every override without failure,
/// each field holds its derived `QUIZ_ARENA_*` variable's value when that is
/// set, else that of the last alias variable for it that is set, else the
/// file layers' value when they hold one, else its default.
pub proof fn law_section_takes_each_field_from_its_highest_layer(
    template: ValueView,
    file: Option<ValueView>,
    s0: SectionState,
    claims: Seq<(Seq<char>, Seq<char>)>,
    env: Seq<(Seq<char>, Option<Seq<char>>)>,
    n: nat,
)
    requires
        crate::config::value::unique_throughout(template),
        s0.leaves == crate::config::value::leaves(template, Seq::empty()),
        s0.tree == match file {
            Some(f) => crate::config::value::merged(template, f),
            None => template,
        },
        s0.next_alias == 0,
        s0.next_leaf == 0,
        file_fits_fields(s0.leaves, file),
        run(s0, claims, env, n).2,
        run(s0, claims, env, n).0.next_alias == s0.aliases.len(),
        run(s0, claims, env, n).0.next_leaf == s0.leaves.len(),
    ensures
        forall|j: int|
            0 <= j < s0.leaves.len() ==> #[trigger] crate::config::value::lookup(
                run(s0, claims, env, n).0.tree,
                s0.leaves[j].0,
            ) == Some(layered_value(s0, file, env, j)),
{
    crate::config::value::lemma_leaves_distinct(template, Seq::empty());
    crate::config::value::lemma_leaves_lookup(template, Seq::empty());
    law_layers_take_precedence(s0, claims, env, n);
    let s = run(s0, claims, env, n).0;
    assert forall|j: int| 0 <= j < s0.leaves.len() implies #[trigger] crate::config::value::lookup(
        s.tree,
        s0.leaves[j].0,
    ) == Some(layered_value(s0, file, env, j)) by {
        let p = s0.leaves[j].0;
        assert(p.skip(0) =~= p);
        assert(crate::config::value::lookup(template, p) == Some(s0.leaves[j].1));
        match file {
            Some(f) => {
                if crate::config::value::misses(f, p) {
                    crate::config::value::law_overlay_keeps_unmentioned(template, f, p);
                } else {
                    let x = crate::config::value::lookup(f, p)->0;
                    crate::config::value::law_overlay_value_wins(template, f, p, x);
                }
            },
            None => {},
        }
    }
}
} // verus!
