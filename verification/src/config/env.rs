//! Environment overrides: the variable name derived for each field, how a
//! variable's text is read in the shape of the field's default, the
//! environment snapshot, and the registry that keeps each variable name
//! pointing at one field.

use vstd::prelude::*;

use crate::config::value::{ConfigValue, ValueView};
use crate::text::{owned, parse_i64_text, parse_u64_text, same_text};

verus! {

/// The upper-case form of `s`, as `str::to_uppercase` computes it with the
/// full Unicode case mapping.
pub uninterp spec fn uppercase_of(s: Seq<char>) -> Seq<char>;

/// Whether every character of `s` is ASCII.
pub open spec fn is_ascii_text(s: Seq<char>) -> bool {
    forall|i: int| 0 <= i < s.len() ==> (#[trigger] s[i] as int) < 128
}

/// `s` with each ASCII lower-case letter replaced by its upper-case letter.
pub open spec fn ascii_uppercase(s: Seq<char>) -> Seq<char> {
    s.map_values(|c: char| if 'a' <= c <= 'z' { ((c as int) - 32) as char } else { c })
}

/// Calls `str::to_uppercase`. Claims that the result is the upper-case
/// mapping of `s`, which depends on `s` alone, and that on ASCII text it
/// upper-cases the letters `a` to `z` and keeps every other character; what
/// the mapping does beyond ASCII is left to its name.
#[verifier::external_body]
pub(crate) fn to_uppercase(s: &str) -> (r: String)
    ensures
        r@ == uppercase_of(s@),
        is_ascii_text(s@) ==> r@ == ascii_uppercase(s@),
{
    s.to_uppercase()
}

/// Whether `s` is a JSON number, as `str::parse::<serde_json::Number>`
/// accepts it.
pub uninterp spec fn json_number_text(s: Seq<char>) -> bool;

/// Whether `s` is a JSON array, as `serde_json::from_str` reads one.
pub uninterp spec fn json_array_text(s: Seq<char>) -> bool;

/// Calls `str::parse::<serde_json::Number>` and reports whether it succeeded.
/// Claims only that the answer depends on `s` alone.
#[verifier::external_body]
pub(crate) fn is_json_number(s: &str) -> (b: bool)
    ensures
        b == json_number_text(s@),
{
    s.parse::<serde_json::Number>().is_ok()
}

/// Calls `serde_json::from_str::<Vec<serde_json::Value>>` and reports whether
/// it succeeded. Claims only that the answer depends on `s` alone.
#[verifier::external_body]
pub(crate) fn is_json_array(s: &str) -> (b: bool)
    ensures
        b == json_array_text(s@),
{
    serde_json::from_str::<Vec<serde_json::Value>>(s).is_ok()
}

/// The segments of `path` joined by `_`, each upper-cased and each led by
/// `_`.
pub open spec fn underscored(path: Seq<Seq<char>>) -> Seq<char>
    decreases path.len(),
{
    if path.len() == 0 {
        Seq::empty()
    } else {
        underscored(path.drop_last()) + "_"@ + uppercase_of(path.last())
    }
}

/// The variable name derived for the field at `path` of `section`:
/// `QUIZ_ARENA_<SECTION>_<SEGMENT>_...`, upper-cased.
pub open spec fn derived_var_name(section: Seq<char>, path: Seq<Seq<char>>) -> Seq<char> {
    "QUIZ_ARENA_"@ + uppercase_of(section) + underscored(path)
}

/// The segments of `path` joined by `_`, each led by `_` and with its ASCII
/// letters upper-cased.
pub open spec fn ascii_underscored(path: Seq<Seq<char>>) -> Seq<char>
    decreases path.len(),
{
    if path.len() == 0 {
        Seq::empty()
    } else {
        ascii_underscored(path.drop_last()) + "_"@ + ascii_uppercase(path.last())
    }
}

/// Whether the section name and every segment of the path are ASCII.
pub open spec fn ascii_field(section: Seq<char>, path: Seq<Seq<char>>) -> bool {
    is_ascii_text(section) && forall|i: int| 0 <= i < path.len() ==> is_ascii_text(
        #[trigger] path[i],
    )
}

/// `("my_module", ["retry", "max_attempts"])` becomes
/// `QUIZ_ARENA_MY_MODULE_RETRY_MAX_ATTEMPTS`.
pub fn env_var_name(section: &str, path: &Vec<String>) -> (name: String)
    ensures
        name@ == derived_var_name(section@, crate::config::value::path_view(path@)),
        ascii_field(section@, crate::config::value::path_view(path@)) ==> name@ == "QUIZ_ARENA_"@
            + ascii_uppercase(section@) + ascii_underscored(
            crate::config::value::path_view(path@),
        ),
{
    let ghost pv = crate::config::value::path_view(path@);
    let mut name = owned("QUIZ_ARENA_");
    let upper = to_uppercase(section);
    name.append(upper.as_str());
    let mut i: usize = 0;
    assert(pv.take(0) =~= Seq::<Seq<char>>::empty());
    while i < path.len()
        invariant
            i <= path.len(),
            pv == crate::config::value::path_view(path@),
            name@ == "QUIZ_ARENA_"@ + uppercase_of(section@) + underscored(pv.take(i as int)),
            ascii_field(section@, pv) ==> name@ == "QUIZ_ARENA_"@ + ascii_uppercase(section@)
                + ascii_underscored(pv.take(i as int)),
        decreases path.len() - i,
    {
        let segment = to_uppercase(path[i].as_str());
        name.append("_");
        name.append(segment.as_str());
        proof {
            assert(pv.take(i + 1).drop_last() =~= pv.take(i as int));
            assert(pv.take(i + 1).last() == path@[i as int]@);
            assert(pv[i as int] == path@[i as int]@);
        }
        i = i + 1;
    }
    assert(pv.take(path.len() as int) =~= pv);
    name
}

/// The segments of `path` joined by `.`.
pub open spec fn dotted(path: Seq<Seq<char>>) -> Seq<char>
    decreases path.len(),
{
    if path.len() == 0 {
        Seq::empty()
    } else if path.len() == 1 {
        path[0]
    } else {
        dotted(path.drop_last()) + "."@ + path.last()
    }
}

/// The segments of `path` joined by `.`.
pub fn path_text(path: &Vec<String>) -> (s: String)
    ensures
        s@ == dotted(crate::config::value::path_view(path@)),
{
    let ghost pv = crate::config::value::path_view(path@);
    let mut s = owned("");
    proof {
        reveal_strlit("");
    }
    let mut i: usize = 0;
    assert(pv.take(0) =~= Seq::<Seq<char>>::empty());
    while i < path.len()
        invariant
            i <= path.len(),
            pv == crate::config::value::path_view(path@),
            s@ == dotted(pv.take(i as int)),
        decreases path.len() - i,
    {
        if i > 0 {
            s.append(".");
        }
        s.append(path[i].as_str());
        proof {
            assert(pv.take(i + 1).drop_last() =~= pv.take(i as int));
            assert(pv.take(i + 1).last() == path@[i as int]@);
            if i == 0 {
                assert(pv.take(1)[0] == path@[0]@);
            }
        }
        i = i + 1;
    }
    assert(pv.take(path.len() as int) =~= pv);
    s
}

/// What `str::parse::<bool>` gives for `s`.
pub open spec fn bool_from_text(s: Seq<char>) -> Option<bool> {
    if s == "true"@ {
        Some(true)
    } else if s == "false"@ {
        Some(false)
    } else {
        None
    }
}

/// Why a variable's text does not fit its field.
#[derive(Debug, Clone, Copy, PartialEq, Eq)]
pub enum EnvValueError {
    ExpectedBoolean,
    ExpectedNumber,
    ExpectedInteger,
    ExpectedArray,
}

impl EnvValueError {
    /// The message that describes this error.
    pub fn message(&self) -> (m: String)
        ensures
            m@ == env_value_error_message(*self),
    {
        match self {
            EnvValueError::ExpectedBoolean => owned("expected a boolean"),
            EnvValueError::ExpectedNumber => owned("expected a number"),
            EnvValueError::ExpectedInteger => owned("expected an integer"),
            EnvValueError::ExpectedArray => owned("expected a JSON array"),
        }
    }
}

/// The message that describes an env value error.
pub open spec fn env_value_error_message(e: EnvValueError) -> Seq<char> {
    match e {
        EnvValueError::ExpectedBoolean => "expected a boolean"@,
        EnvValueError::ExpectedNumber => "expected a number"@,
        EnvValueError::ExpectedInteger => "expected an integer"@,
        EnvValueError::ExpectedArray => "expected a JSON array"@,
    }
}

/// A variable's text read in the shape of the field's default. A null
/// default (an optional field) takes a boolean, then a number, then text.
pub open spec fn env_value_of(raw: Seq<char>, template: ValueView) -> Result<ValueView, EnvValueError> {
    match template {
        ValueView::Bool(_) => match bool_from_text(raw) {
            Some(b) => Ok(ValueView::Bool(b)),
            None => Err(EnvValueError::ExpectedBoolean),
        },
        ValueView::Number(_) => if json_number_text(raw) {
            Ok(ValueView::Number(raw))
        } else {
            Err(EnvValueError::ExpectedNumber)
        },
        ValueView::Integer(_) => match crate::text::i64_from_text(raw) {
            Some(v) => Ok(ValueView::Integer(v as int)),
            None => match crate::text::u64_from_text(raw) {
                Some(v) => Ok(ValueView::Integer(v as int)),
                None => Err(EnvValueError::ExpectedInteger),
            },
        },
        ValueView::Text(_) => Ok(ValueView::Text(raw)),
        ValueView::Array(_) => if json_array_text(raw) {
            Ok(ValueView::Array(raw))
        } else {
            Err(EnvValueError::ExpectedArray)
        },
        ValueView::Null => match bool_from_text(raw) {
            Some(b) => Ok(ValueView::Bool(b)),
            None => if json_number_text(raw) {
                Ok(ValueView::Number(raw))
            } else {
                Ok(ValueView::Text(raw))
            },
        },
        ValueView::Table(_) => Err(EnvValueError::ExpectedArray),
    }
}

/// Reads `s` as `str::parse::<bool>` does.
pub fn parse_bool_text(s: &str) -> (r: Option<bool>)
    ensures
        r == bool_from_text(s@),
{
    if same_text(s, "true") {
        Some(true)
    } else if same_text(s, "false") {
        Some(false)
    } else {
        None
    }
}

/// Parses the variable text `raw` into the shape of `template`, the field's
/// default value. Templates are leaves, never tables.
pub fn parse_env_value(raw: &str, template: &ConfigValue) -> (r: Result<ConfigValue, EnvValueError>)
    requires
        !(template@ is Table),
    ensures
        match env_value_of(raw@, template@) {
            Ok(v) => r matches Ok(c) && c@ == v,
            Err(e) => r == Err::<ConfigValue, EnvValueError>(e),
        },
{
    match template {
        ConfigValue::Bool(_) => match parse_bool_text(raw) {
            Some(b) => Ok(ConfigValue::Bool(b)),
            None => Err(EnvValueError::ExpectedBoolean),
        },
        ConfigValue::Number(_) => if is_json_number(raw) {
            Ok(ConfigValue::Number(owned(raw)))
        } else {
            Err(EnvValueError::ExpectedNumber)
        },
        ConfigValue::Integer(_) => match parse_i64_text(raw) {
            Some(v) => Ok(ConfigValue::Integer(v as i128)),
            None => match parse_u64_text(raw) {
                Some(v) => Ok(ConfigValue::Integer(v as i128)),
                None => Err(EnvValueError::ExpectedInteger),
            },
        },
        ConfigValue::Text(_) => Ok(ConfigValue::Text(owned(raw))),
        ConfigValue::Array(_) => if is_json_array(raw) {
            Ok(ConfigValue::Array(owned(raw)))
        } else {
            Err(EnvValueError::ExpectedArray)
        },
        ConfigValue::Null => match parse_bool_text(raw) {
            Some(b) => Ok(ConfigValue::Bool(b)),
            None => if is_json_number(raw) {
                Ok(ConfigValue::Number(owned(raw)))
            } else {
                Ok(ConfigValue::Text(owned(raw)))
            },
        },
        ConfigValue::Table(_) => Err(EnvValueError::ExpectedArray),
    }
}

/// A boolean field reads exactly `true` and `false`, as `str::parse::<bool>`
/// does, whatever its default; any other text is refused.
pub proof fn law_boolean_fields_read_true_and_false(raw: Seq<char>, default: bool)
    ensures
        raw == "true"@ ==> env_value_of(raw, ValueView::Bool(default)) == Ok::<ValueView, EnvValueError>(ValueView::Bool(true)),
        raw == "false"@ ==> env_value_of(raw, ValueView::Bool(default)) == Ok::<ValueView, EnvValueError>(ValueView::Bool(false)),
        raw != "true"@ && raw != "false"@ ==> env_value_of(raw, ValueView::Bool(default)) == Err::<ValueView, EnvValueError>(EnvValueError::ExpectedBoolean),
{
    reveal_strlit("true");
    reveal_strlit("false");
    assert("true"@ != "false"@) by {
        assert("true"@[0] != "false"@[0]);
    }
}

/// A text field takes the variable's text as it is, whatever its default.
pub proof fn law_text_fields_keep_the_text(raw: Seq<char>, default: Seq<char>)
    ensures
        env_value_of(raw, ValueView::Text(default)) == Ok::<ValueView, EnvValueError>(ValueView::Text(raw)),
{
}

/// An integer field reads an optional sign and base-ten digits, and takes
/// their value when it fits an `i64` or a `u64`; anything else is refused.
pub proof fn law_integer_fields_read_their_value(raw: Seq<char>, default: int)
    ensures
        match crate::text::literal_sign_digits(raw) {
            Some((negative, digits)) => {
                let v: int = if negative {
                    -crate::text::digits_value(digits)
                } else {
                    crate::text::digits_value(digits) as int
                };
                &&& (i64::MIN <= v <= u64::MAX) ==> env_value_of(raw, ValueView::Integer(default))
                    == Ok::<ValueView, EnvValueError>(ValueView::Integer(v))
                &&& !(i64::MIN <= v <= u64::MAX) ==> env_value_of(raw, ValueView::Integer(default))
                    == Err::<ValueView, EnvValueError>(EnvValueError::ExpectedInteger)
            },
            None => env_value_of(raw, ValueView::Integer(default)) == Err::<ValueView, EnvValueError>(
                EnvValueError::ExpectedInteger,
            ),
        },
{
}

/// The value of the first pair named `name`.
pub open spec fn first_value<V>(pairs: Seq<(Seq<char>, V)>, name: Seq<char>) -> Option<V>
    decreases pairs.len(),
{
    if pairs.len() == 0 {
        None
    } else if pairs[0].0 == name {
        Some(pairs[0].1)
    } else {
        first_value(pairs.drop_first(), name)
    }
}

/// Whether no name occurs twice among `pairs`.
pub open spec fn unique_names<V>(pairs: Seq<(Seq<char>, V)>) -> bool {
    forall|i: int, j: int|
        0 <= i < pairs.len() && 0 <= j < pairs.len() && i != j ==> (#[trigger] pairs[i]).0 != (
        #[trigger] pairs[j]).0
}

proof fn lemma_first_value_scan<V>(pairs: Seq<(Seq<char>, V)>, name: Seq<char>, i: int)
    requires
        0 <= i <= pairs.len(),
        forall|j: int| 0 <= j < i ==> (#[trigger] pairs[j]).0 != name,
    ensures
        i < pairs.len() && pairs[i].0 == name ==> first_value(pairs, name) == Some(pairs[i].1),
        i == pairs.len() ==> first_value(pairs, name) is None,
    decreases i,
{
    if i > 0 {
        assert forall|j: int| 0 <= j < i - 1 implies (#[trigger] pairs.drop_first()[j]).0
            != name by {
            assert(pairs.drop_first()[j] == pairs[j + 1]);
        }
        lemma_first_value_scan(pairs.drop_first(), name, i - 1);
    }
}

proof fn lemma_first_value_push<V>(pairs: Seq<(Seq<char>, V)>, k: Seq<char>, v: V, name: Seq<char>)
    requires
        first_value(pairs, k) is None,
    ensures
        first_value(pairs.push((k, v)), name) == if name == k {
            Some(v)
        } else {
            first_value(pairs, name)
        },
    decreases pairs.len(),
{
    if pairs.len() == 0 {
        assert(pairs.push((k, v)).drop_first() =~= Seq::<(Seq<char>, V)>::empty());
    } else {
        assert(pairs.push((k, v)).drop_first() =~= pairs.drop_first().push((k, v)));
        lemma_first_value_push(pairs.drop_first(), k, v, name);
    }
}

/// The process environment at startup: each variable by name, with its
/// text, or `None` when the value is not valid Unicode.
#[derive(Debug)]
pub struct EnvSnapshot {
    vars: Vec<(String, Option<String>)>,
}

/// The view of one variable.
pub open spec fn env_pair_view(p: (String, Option<String>)) -> (Seq<char>, Option<Seq<char>>) {
    (
        p.0@,
        match p.1 {
            Some(s) => Some(s@),
            None => None,
        },
    )
}

impl View for EnvSnapshot {
    type V = Seq<(Seq<char>, Option<Seq<char>>)>;

    closed spec fn view(&self) -> Seq<(Seq<char>, Option<Seq<char>>)> {
        self.vars@.map_values(|p: (String, Option<String>)| env_pair_view(p))
    }
}

/// `pairs` with each name kept once, at its last occurrence and with its
/// last value, in the order of those occurrences: a later variable of the
/// same name replaces an earlier one.
pub open spec fn keep_last<V>(pairs: Seq<(Seq<char>, V)>) -> Seq<(Seq<char>, V)>
    decreases pairs.len(),
{
    if pairs.len() == 0 {
        Seq::empty()
    } else if first_value(pairs.drop_first(), pairs[0].0) is Some {
        keep_last(pairs.drop_first())
    } else {
        seq![pairs[0]] + keep_last(pairs.drop_first())
    }
}

/// Keeping each name's last occurrence leaves no name twice, and adds no
/// name.
proof fn lemma_keep_last<V>(pairs: Seq<(Seq<char>, V)>)
    ensures
        unique_names(keep_last(pairs)),
        forall|n: Seq<char>| first_value(pairs, n) is None ==> #[trigger] first_value(keep_last(pairs), n) is None,
    decreases pairs.len(),
{
    if pairs.len() > 0 {
        let rest = pairs.drop_first();
        lemma_keep_last(rest);
        let k = keep_last(rest);
        assert forall|n: Seq<char>| first_value(pairs, n) is None implies #[trigger] first_value(
            keep_last(pairs),
            n,
        ) is None by {
            assert(pairs[0].0 != n);
            assert(first_value(rest, n) is None);
            assert(first_value(k, n) is None);
            if first_value(rest, pairs[0].0) is None {
                let full = seq![pairs[0]] + k;
                assert(full.drop_first() =~= k);
                assert(full[0] == pairs[0]);
            }
        }
        if first_value(rest, pairs[0].0) is None {
            let full = seq![pairs[0]] + k;
            assert(full.drop_first() =~= k);
            assert(first_value(k, pairs[0].0) is None);
            assert forall|a: int, b: int|
                0 <= a < full.len() && 0 <= b < full.len() && a != b implies (#[trigger] full[a]).0
                != (#[trigger] full[b]).0 by {
                if a > 0 && b > 0 {
                    assert(full[a] == k[a - 1] && full[b] == k[b - 1]);
                } else if a == 0 {
                    assert(full[b] == k[b - 1]);
                    if k[b - 1].0 == pairs[0].0 {
                        lemma_first_value_none(k, pairs[0].0, b - 1);
                    }
                } else {
                    assert(full[a] == k[a - 1]);
                    if k[a - 1].0 == pairs[0].0 {
                        lemma_first_value_none(k, pairs[0].0, a - 1);
                    }
                }
            }
        }
    }
}

/// A name that no pair has is not at any index.
proof fn lemma_first_value_none<V>(pairs: Seq<(Seq<char>, V)>, name: Seq<char>, i: int)
    requires
        first_value(pairs, name) is None,
        0 <= i < pairs.len(),
    ensures
        pairs[i].0 != name,
    decreases i,
{
    if i > 0 {
        assert(pairs.drop_first()[i - 1] == pairs[i]);
        lemma_first_value_none(pairs.drop_first(), name, i - 1);
    }
}

impl EnvSnapshot {
    /// No variable name occurs twice.
    #[verifier::type_invariant]
    spec fn names_unique(self) -> bool {
        unique_names(self@)
    }

    /// The snapshot holding `vars`, where a later variable of a name replaces
    /// an earlier one.
    pub fn new(vars: Vec<(String, Option<String>)>) -> (e: EnvSnapshot)
        ensures
            e@ == keep_last(vars@.map_values(|p: (String, Option<String>)| env_pair_view(p))),
            unique_names(e@),
    {
        let ghost all = vars@.map_values(|p: (String, Option<String>)| env_pair_view(p));
        let mut kept: Vec<(String, Option<String>)> = Vec::new();
        let mut i: usize = 0;
        proof {
            assert(all.skip(0) =~= all);
            assert(Seq::<(Seq<char>, Option<Seq<char>>)>::empty() + keep_last(all) =~= keep_last(all));
        }
        while i < vars.len()
            invariant
                i <= vars.len(),
                all == vars@.map_values(|p: (String, Option<String>)| env_pair_view(p)),
                kept@.map_values(|p: (String, Option<String>)| env_pair_view(p)) + keep_last(
                    all.skip(i as int),
                ) == keep_last(all),
            decreases vars.len() - i,
        {
            let name = vars[i].0.as_str();
            let mut later = false;
            let mut j: usize = i + 1;
            let ghost tail = all.skip(i + 1);
            while j < vars.len()
                invariant
                    i < j <= vars.len(),
                    all == vars@.map_values(|p: (String, Option<String>)| env_pair_view(p)),
                    tail == all.skip(i + 1),
                    name@ == all[i as int].0,
                    !later ==> forall|m: int| 0 <= m < j - (i + 1) ==> (#[trigger] tail[m]).0 != name@,
                    later ==> first_value(tail, name@) is Some,
                decreases vars.len() - j,
            {
                if !later {
                    assert(tail[j - (i + 1)] == all[j as int]);
                    if same_text(vars[j].0.as_str(), name) {
                        proof {
                            lemma_first_value_scan(tail, name@, j - (i + 1));
                        }
                        later = true;
                    }
                }
                j = j + 1;
            }
            proof {
                if !later {
                    lemma_first_value_scan(tail, name@, tail.len() as int);
                }
                let here = all.skip(i as int);
                assert(here.drop_first() =~= tail);
                assert(here[0] == all[i as int]);
            }
            if !later {
                let value = match &vars[i].1 {
                    Some(text) => Some(owned(text.as_str())),
                    None => None,
                };
                let ghost before = kept@.map_values(|p: (String, Option<String>)| env_pair_view(p));
                kept.push((owned(name), value));
                proof {
                    let now = kept@.map_values(|p: (String, Option<String>)| env_pair_view(p));
                    assert(now =~= before.push(all[i as int]));
                    assert(now + keep_last(tail) =~= before + (seq![all[i as int]] + keep_last(tail)));
                }
            }
            i = i + 1;
        }
        proof {
            assert(all.skip(i as int) =~= Seq::<(Seq<char>, Option<Seq<char>>)>::empty());
            assert(kept@.map_values(|p: (String, Option<String>)| env_pair_view(p)) =~= keep_last(all));
            lemma_keep_last(all);
        }
        EnvSnapshot { vars: kept }
    }

    /// The variable named `name`: absent, not valid Unicode, or its text.
    pub fn get(&self, name: &str) -> (r: Option<Option<&String>>)
        ensures
            match first_value(self@, name@) {
                None => r is None,
                Some(None) => r == Some(None::<&String>),
                Some(Some(text)) => r matches Some(Some(s)) && s@ == text,
            },
    {
        let ghost v = self@;
        let mut i: usize = 0;
        while i < self.vars.len()
            invariant
                i <= self.vars.len(),
                v == self@,
                v.len() == self.vars@.len(),
                forall|j: int| 0 <= j < i ==> (#[trigger] v[j]).0 != name@,
            decreases self.vars.len() - i,
        {
            assert(v[i as int] == env_pair_view(self.vars@[i as int]));
            if same_text(self.vars[i].0.as_str(), name) {
                proof {
                    lemma_first_value_scan(v, name@, i as int);
                }
                return match &self.vars[i].1 {
                    Some(text) => Some(Some(text)),
                    None => Some(None),
                };
            }
            i = i + 1;
        }
        proof {
            lemma_first_value_scan(v, name@, i as int);
        }
        None
    }
}

/// The variable names claimed so far, each with the field it resolves to.
#[derive(Debug)]
pub struct ClaimRegistry {
    claimed: Vec<(String, String)>,
}

impl View for ClaimRegistry {
    type V = Seq<(Seq<char>, Seq<char>)>;

    closed spec fn view(&self) -> Seq<(Seq<char>, Seq<char>)> {
        self.claimed@.map_values(|p: (String, String)| (p.0@, p.1@))
    }
}

/// The field a claim names: the section itself for an empty path, else
/// `section.segment...`.
pub open spec fn claim_target(section: Seq<char>, path: Seq<Seq<char>>) -> Seq<char> {
    if path.len() == 0 {
        section
    } else {
        section + "."@ + dotted(path)
    }
}

/// How claiming `name` for `target` answers: a name already claimed for
/// another field is ambiguous; a new name is recorded.
pub open spec fn claim_result(
    claims: Seq<(Seq<char>, Seq<char>)>,
    name: Seq<char>,
    target: Seq<char>,
) -> (Seq<(Seq<char>, Seq<char>)>, Option<Seq<char>>) {
    match first_value(claims, name) {
        Some(existing) => if existing == target {
            (claims, None)
        } else {
            (claims, Some(existing))
        },
        None => (claims.push((name, target)), None),
    }
}

impl ClaimRegistry {
    /// No variable name is claimed twice.
    #[verifier::type_invariant]
    spec fn names_unique(self) -> bool {
        unique_names(self@)
    }

    /// A registry with nothing claimed.
    pub fn new() -> (r: ClaimRegistry)
        ensures
            r@ == Seq::<(Seq<char>, Seq<char>)>::empty(),
    {
        let r = ClaimRegistry { claimed: Vec::new() };
        assert(r@ =~= Seq::<(Seq<char>, Seq<char>)>::empty());
        r
    }

    /// Records that `env_name` resolves to the field at `path` of `section`.
    /// Two distinct fields mapping to one variable name is ambiguous.
    pub fn claim(&mut self, env_name: &str, section: &str, path: &Vec<String>) -> (r: Result<
        (),
        ConfigError,
    >)
        ensures
            unique_names(final(self)@),
            ({
                let target = claim_target(section@, crate::config::value::path_view(path@));
                let (after, conflict) = claim_result(old(self)@, env_name@, target);
                &&& final(self)@ == after
                &&& match conflict {
                    None => r is Ok,
                    Some(existing) => r matches Err(ConfigError::Ambiguous { var, existing: e, target: t })
                        && var@ == env_name@ && e@ == existing && t@ == target,
                }
            }),
    {
        let target = if path.len() == 0 {
            owned(section)
        } else {
            let mut t = owned(section);
            t.append(".");
            let rest = path_text(path);
            t.append(rest.as_str());
            t
        };
        proof {
            reveal_strlit(".");
            use_type_invariant(&*self);
        }
        let ghost v = self@;
        let mut i: usize = 0;
        while i < self.claimed.len()
            invariant
                i <= self.claimed.len(),
                v == self@,
                v.len() == self.claimed@.len(),
                forall|j: int| 0 <= j < i ==> (#[trigger] v[j]).0 != env_name@,
                target@ == claim_target(section@, crate::config::value::path_view(path@)),
                unique_names(v),
            decreases self.claimed.len() - i,
        {
            assert(v[i as int] == (self.claimed@[i as int].0@, self.claimed@[i as int].1@));
            if same_text(self.claimed[i].0.as_str(), env_name) {
                proof {
                    lemma_first_value_scan(v, env_name@, i as int);
                }
                if same_text(self.claimed[i].1.as_str(), target.as_str()) {
                    return Ok(());
                } else {
                    return Err(
                        ConfigError::Ambiguous {
                            var: owned(env_name),
                            existing: owned(self.claimed[i].1.as_str()),
                            target,
                        },
                    );
                }
            }
            i = i + 1;
        }
        proof {
            lemma_first_value_scan(v, env_name@, i as int);
        }
        let mut claimed: Vec<(String, String)> = Vec::new();
        std::mem::swap(&mut claimed, &mut self.claimed);
        claimed.push((owned(env_name), target));
        let ghost after = claimed@.map_values(|p: (String, String)| (p.0@, p.1@));
        assert(after =~= v.push((env_name@, claim_target(section@, crate::config::value::path_view(path@)))));
        assert(unique_names(after)) by {
            assert forall|a: int, b: int|
                0 <= a < after.len() && 0 <= b < after.len() && a != b implies (#[trigger] after[a]).0
                != (#[trigger] after[b]).0 by {
                if a < v.len() && b < v.len() {
                    assert(after[a] == v[a] && after[b] == v[b]);
                } else if a < v.len() {
                    assert(after[a] == v[a]);
                } else {
                    assert(after[b] == v[b]);
                }
            }
        }
        self.claimed = claimed;
        Ok(())
    }
}

/// Once a variable name is claimed for a field it stays with that field:
/// claiming it again for the same field succeeds and changes nothing, and
/// claiming it for any other field is refused as ambiguous.
pub proof fn law_claim_is_stable(
    claims: Seq<(Seq<char>, Seq<char>)>,
    name: Seq<char>,
    target: Seq<char>,
    other: Seq<char>,
)
    requires
        claim_result(claims, name, target).1 is None,
    ensures
        first_value(claim_result(claims, name, target).0, name) == Some(target),
        claim_result(claim_result(claims, name, target).0, name, target) == (
            claim_result(claims, name, target).0,
            None::<Seq<char>>,
        ),
        other != target ==> claim_result(claim_result(claims, name, target).0, name, other).1
            == Some(target),
{
    if first_value(claims, name) is None {
        lemma_first_value_push(claims, name, target, name);
    }
}

/// Why a section could not be resolved.
#[derive(Debug, PartialEq, Eq)]
pub enum ConfigError {
    /// The file holds something other than a table under the section's name.
    SectionNotTable { section: String },
    /// An alias names a field the section does not have.
    UnknownAliasField { alias: String, field: String, section: String },
    /// A variable's value is not valid Unicode.
    NotUnicode { var: String },
    /// A variable's text does not fit its field.
    InvalidEnvValue { var: String, reason: EnvValueError },
    /// One variable name resolves to two fields.
    Ambiguous { var: String, existing: String, target: String },
}

/// The message that describes a configuration error, with the reason after
/// a colon where there is one.
pub open spec fn config_error_message(e: ConfigError) -> Seq<char> {
    match e {
        ConfigError::SectionNotTable { section } => "config section `"@ + section@
            + "` must be a table"@,
        ConfigError::UnknownAliasField { alias, field, section } => "alias `"@ + alias@
            + "` targets unknown field `"@ + field@ + "` in section `"@ + section@ + "`"@,
        ConfigError::NotUnicode { var } => "environment variable `"@ + var@
            + "` is not valid Unicode"@,
        ConfigError::InvalidEnvValue { var, reason } => "invalid value in environment variable `"@
            + var@ + "`: "@ + env_value_error_message(reason),
        ConfigError::Ambiguous { var, existing, target } => "environment variable `"@ + var@
            + "` is ambiguous, it maps to both `"@ + existing@ + "` and `"@ + target@ + "`"@,
    }
}

impl ConfigError {
    /// The message that describes this error.
    pub fn message(&self) -> (m: String)
        ensures
            m@ == config_error_message(*self),
    {
        match self {
            ConfigError::SectionNotTable { section } => {
                let mut m = owned("config section `");
                m.append(section.as_str());
                m.append("` must be a table");
                m
            },
            ConfigError::UnknownAliasField { alias, field, section } => {
                let mut m = owned("alias `");
                m.append(alias.as_str());
                m.append("` targets unknown field `");
                m.append(field.as_str());
                m.append("` in section `");
                m.append(section.as_str());
                m.append("`");
                m
            },
            ConfigError::NotUnicode { var } => {
                let mut m = owned("environment variable `");
                m.append(var.as_str());
                m.append("` is not valid Unicode");
                m
            },
            ConfigError::InvalidEnvValue { var, reason } => {
                let mut m = owned("invalid value in environment variable `");
                m.append(var.as_str());
                m.append("`: ");
                let r = reason.message();
                m.append(r.as_str());
                m
            },
            ConfigError::Ambiguous { var, existing, target } => {
                let mut m = owned("environment variable `");
                m.append(var.as_str());
                m.append("` is ambiguous, it maps to both `");
                m.append(existing.as_str());
                m.append("` and `");
                m.append(target.as_str());
                m.append("`");
                m
            },
        }
    }
}

} // verus!
