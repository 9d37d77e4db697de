//! Configuration trees: the values a section is made of, reading a value
//! at a path, overlaying one tree on another, writing at a path, and listing
//! the leaves of a template.

use vstd::prelude::*;

use crate::text::{owned, same_text};

verus! {

/// A configuration value, shaped as JSON is.
#[derive(Debug, PartialEq, Eq)]
pub enum ConfigValue {
    Null,
    Bool(bool),
    /// A whole number, within the range of `i64` or of `u64`.
    Integer(i128),
    /// Any other number, as its JSON text.
    Number(String),
    Text(String),
    /// An array, as its JSON text. Arrays are leaves: nothing reaches inside.
    Array(String),
    /// A table of named values.
    Table(Vec<(String, ConfigValue)>),
}

/// A configuration value seen as mathematics.
pub enum ValueView {
    Null,
    Bool(bool),
    Integer(int),
    Number(Seq<char>),
    Text(Seq<char>),
    Array(Seq<char>),
    Table(Seq<(Seq<char>, ValueView)>),
}

/// The view of each entry of a table.
pub open spec fn entries_view(s: Seq<(String, ConfigValue)>) -> Seq<(Seq<char>, ValueView)>
    decreases s,
{
    if s.len() == 0 {
        Seq::empty()
    } else {
        entries_view(s.drop_last()).push((s.last().0@, s.last().1.view_value()))
    }
}

impl ConfigValue {
    /// What this value is.
    pub open spec fn view_value(&self) -> ValueView
        decreases self,
    {
        match self {
            ConfigValue::Null => ValueView::Null,
            ConfigValue::Bool(b) => ValueView::Bool(*b),
            ConfigValue::Integer(i) => ValueView::Integer(*i as int),
            ConfigValue::Number(n) => ValueView::Number(n@),
            ConfigValue::Text(t) => ValueView::Text(t@),
            ConfigValue::Array(a) => ValueView::Array(a@),
            ConfigValue::Table(es) => ValueView::Table(entries_view(es@)),
        }
    }
}

impl View for ConfigValue {
    type V = ValueView;

    open spec fn view(&self) -> ValueView {
        self.view_value()
    }
}

} // verus!

verus! {

/// The view of each segment of a path.
pub open spec fn path_view(path: Seq<String>) -> Seq<Seq<char>> {
    path.map_values(|s: String| s@)
}

/// The index of the first entry named `k`.
pub open spec fn key_index(es: Seq<(Seq<char>, ValueView)>, k: Seq<char>) -> Option<int>
    decreases es.len(),
{
    if es.len() == 0 {
        None
    } else if es[0].0 == k {
        Some(0)
    } else {
        match key_index(es.drop_first(), k) {
            Some(i) => Some(i + 1),
            None => None,
        }
    }
}

/// The value at `p` in `v`: each segment names an entry of a table.
pub open spec fn lookup(v: ValueView, p: Seq<Seq<char>>) -> Option<ValueView>
    decreases p.len(),
{
    if p.len() == 0 {
        Some(v)
    } else {
        match v {
            ValueView::Table(es) => match key_index(es, p[0]) {
                Some(i) => lookup(es[i].1, p.drop_first()),
                None => None,
            },
            _ => None,
        }
    }
}

/// `t` with `v` written at `p`. Missing tables along the way are created,
/// and a value that is not a table where the path goes on is replaced by one.
pub open spec fn inserted(t: ValueView, p: Seq<Seq<char>>, v: ValueView) -> ValueView
    decreases p.len(),
{
    if p.len() == 0 {
        v
    } else {
        let es = match t {
            ValueView::Table(es) => es,
            _ => Seq::empty(),
        };
        match key_index(es, p[0]) {
            Some(i) => ValueView::Table(
                es.update(i, (p[0], inserted(es[i].1, p.drop_first(), v))),
            ),
            None => ValueView::Table(
                es.push((p[0], inserted(ValueView::Table(Seq::empty()), p.drop_first(), v))),
            ),
        }
    }
}

/// The first entry named `k` is the first one whose name is `k`.
pub proof fn lemma_key_index(es: Seq<(Seq<char>, ValueView)>, k: Seq<char>)
    ensures
        match key_index(es, k) {
            Some(i) => 0 <= i < es.len() && es[i].0 == k && forall|j: int|
                0 <= j < i ==> (#[trigger] es[j]).0 != k,
            None => forall|j: int| 0 <= j < es.len() ==> (#[trigger] es[j]).0 != k,
        },
    decreases es.len(),
{
    if es.len() > 0 && es[0].0 != k {
        lemma_key_index(es.drop_first(), k);
        match key_index(es.drop_first(), k) {
            Some(i) => {
                assert forall|j: int| 0 <= j < i + 1 implies (#[trigger] es[j]).0 != k by {
                    if j > 0 {
                        assert(es[j] == es.drop_first()[j - 1]);
                    }
                }
            },
            None => {
                assert forall|j: int| 0 <= j < es.len() implies (#[trigger] es[j]).0 != k by {
                    if j > 0 {
                        assert(es[j] == es.drop_first()[j - 1]);
                    }
                }
            },
        }
    }
}

/// An entry named `k` with none named `k` before it is the first one.
pub proof fn lemma_key_index_at(es: Seq<(Seq<char>, ValueView)>, k: Seq<char>, i: int)
    requires
        0 <= i < es.len(),
        es[i].0 == k,
        forall|j: int| 0 <= j < i ==> (#[trigger] es[j]).0 != k,
    ensures
        key_index(es, k) == Some(i),
{
    lemma_key_index(es, k);
    match key_index(es, k) {
        Some(m) => {
            if m < i {
                assert(es[m].0 != k);
            }
            if m > i {
                assert(es[i].0 != k);
            }
        },
        None => {
            assert(es[i].0 != k);
        },
    }
}

/// A table with no entry named `k` has no index for it.
pub proof fn lemma_key_index_none(es: Seq<(Seq<char>, ValueView)>, k: Seq<char>)
    requires
        forall|j: int| 0 <= j < es.len() ==> (#[trigger] es[j]).0 != k,
    ensures
        key_index(es, k) is None,
{
    lemma_key_index(es, k);
    if let Some(m) = key_index(es, k) {
        assert(es[m].0 != k);
    }
}

/// The view of a table's entries, entry by entry.
pub proof fn lemma_entries_view(s: Seq<(String, ConfigValue)>)
    ensures
        entries_view(s).len() == s.len(),
        forall|i: int| 0 <= i < s.len() ==> #[trigger] entries_view(s)[i] == (s[i].0@, s[i].1@),
    decreases s.len(),
{
    if s.len() > 0 {
        lemma_entries_view(s.drop_last());
        assert forall|i: int| 0 <= i < s.len() implies #[trigger] entries_view(s)[i] == (
            s[i].0@,
            s[i].1@,
        ) by {
            if i < s.len() - 1 {
                assert(s.drop_last()[i] == s[i]);
            }
        }
    }
}

/// The index of the first entry of `es` named `k`.
pub fn find_key(es: &Vec<(String, ConfigValue)>, k: &str) -> (r: Option<usize>)
    ensures
        r matches Some(i) ==> i < es.len(),
        match key_index(entries_view(es@), k@) {
            Some(i) => r == Some(i as usize),
            None => r is None,
        },
{
    proof {
        lemma_entries_view(es@);
    }
    let ghost ev = entries_view(es@);
    let mut i: usize = 0;
    while i < es.len()
        invariant
            i <= es.len(),
            ev == entries_view(es@),
            ev.len() == es@.len(),
            forall|j: int| 0 <= j < es@.len() ==> #[trigger] ev[j] == (es@[j].0@, es@[j].1@),
            forall|j: int| 0 <= j < i ==> (#[trigger] ev[j]).0 != k@,
        decreases es.len() - i,
    {
        if same_text(es[i].0.as_str(), k) {
            proof {
                lemma_key_index_at(ev, k@, i as int);
            }
            return Some(i);
        }
        i = i + 1;
    }
    proof {
        lemma_key_index_none(ev, k@);
    }
    None
}

/// `t` with `v` written at the segments of `path` from `k` on.
fn inserted_value(t: ConfigValue, path: &Vec<String>, k: usize, v: ConfigValue) -> (r: ConfigValue)
    requires
        k <= path.len(),
    ensures
        r@ == inserted(t@, path_view(path@).skip(k as int), v@),
    decreases path.len() - k,
{
    let ghost p = path_view(path@).skip(k as int);
    if k == path.len() {
        assert(p.len() == 0);
        return v;
    }
    assert(p[0] == path@[k as int]@);
    assert(p.drop_first() =~= path_view(path@).skip(k + 1));
    let mut es = match t {
        ConfigValue::Table(es) => es,
        _ => Vec::new(),
    };
    let ghost old_es = es@;
    proof {
        lemma_entries_view(old_es);
        assert(entries_view(Seq::<(String, ConfigValue)>::empty()) =~= Seq::empty());
        assert(match t@ {
            ValueView::Table(tes) => tes,
            _ => Seq::empty(),
        } == entries_view(old_es));
    }
    match find_key(&es, path[k].as_str()) {
        Some(i) => {
            proof {
                lemma_key_index(entries_view(old_es), p[0]);
            }
            let (key, child) = es.remove(i);
            assert(key == old_es[i as int].0 && child == old_es[i as int].1);
            let nc = inserted_value(child, path, k + 1, v);
            es.insert(i, (key, nc));
            proof {
                assert(es@ =~= old_es.update(i as int, (key, nc)));
                lemma_entries_view(es@);
                assert(key@ == p[0]);
                assert(entries_view(es@) =~= entries_view(old_es).update(
                    i as int,
                    (p[0], inserted(entries_view(old_es)[i as int].1, p.drop_first(), v@)),
                ));
            }
            ConfigValue::Table(es)
        },
        None => {
            let nc = inserted_value(ConfigValue::Table(Vec::new()), path, k + 1, v);
            proof {
                assert(entries_view(Seq::<(String, ConfigValue)>::empty()) =~= Seq::empty());
            }
            es.push((owned(path[k].as_str()), nc));
            proof {
                lemma_entries_view(es@);
                assert(entries_view(es@) =~= entries_view(old_es).push(
                    (p[0], inserted(ValueView::Table(Seq::empty()), p.drop_first(), v@)),
                ));
            }
            ConfigValue::Table(es)
        },
    }
}

/// Writes `value` at `path` in `tree`, creating intermediate tables as
/// needed and replacing a non-table where the path goes on.
pub fn insert_at_path(tree: &mut ConfigValue, path: &Vec<String>, value: ConfigValue)
    requires
        path.len() > 0 ==> (*old(tree) is Table),
    ensures
        final(tree)@ == inserted(old(tree)@, path_view(path@), value@),
{
    let mut t = ConfigValue::Null;
    std::mem::swap(&mut t, tree);
    assert(path_view(path@).skip(0) =~= path_view(path@));
    *tree = inserted_value(t, path, 0, value);
}

/// A written value is read back at its path.
pub proof fn law_read_after_insert(t: ValueView, p: Seq<Seq<char>>, v: ValueView)
    ensures
        lookup(inserted(t, p, v), p) == Some(v),
    decreases p.len(),
{
    if p.len() > 0 {
        let es = match t {
            ValueView::Table(es) => es,
            _ => Seq::empty(),
        };
        lemma_key_index(es, p[0]);
        match key_index(es, p[0]) {
            Some(i) => {
                let es2 = es.update(i, (p[0], inserted(es[i].1, p.drop_first(), v)));
                assert forall|j: int| 0 <= j < i implies (#[trigger] es2[j]).0 != p[0] by {
                    assert(es2[j] == es[j]);
                }
                lemma_key_index_at(es2, p[0], i);
                law_read_after_insert(es[i].1, p.drop_first(), v);
            },
            None => {
                let es2 = es.push((p[0], inserted(ValueView::Table(Seq::empty()), p.drop_first(), v)));
                assert forall|j: int| 0 <= j < es.len() implies (#[trigger] es2[j]).0 != p[0] by {
                    assert(es2[j] == es[j]);
                }
                lemma_key_index_at(es2, p[0], es.len() as int);
                law_read_after_insert(ValueView::Table(Seq::empty()), p.drop_first(), v);
            },
        }
    }
}

} // verus!

verus! {

/// `o` overlaid on `b`: tables are overlaid entry by entry, so that what
/// `o` leaves out keeps the value `b` holds, and anything else in `o`
/// replaces `b`.
pub open spec fn merged(b: ValueView, o: ValueView) -> ValueView
    decreases o,
{
    match o {
        ValueView::Table(oe) => match b {
            ValueView::Table(be) => ValueView::Table(merged_entries(be, oe)),
            _ => o,
        },
        _ => o,
    }
}

/// The entries `oe` overlaid, in order, on the entries `be`.
pub open spec fn merged_entries(
    be: Seq<(Seq<char>, ValueView)>,
    oe: Seq<(Seq<char>, ValueView)>,
) -> Seq<(Seq<char>, ValueView)>
    decreases oe,
{
    if oe.len() == 0 {
        be
    } else {
        let rest = merged_entries(be, oe.drop_last());
        let k = oe[oe.len() - 1].0;
        let ov = oe[oe.len() - 1].1;
        match key_index(rest, k) {
            Some(i) => rest.update(i, (k, merged(rest[i].1, ov))),
            None => rest.push((k, ov)),
        }
    }
}

/// `overlay` overlaid on `base`.
fn merged_value(base: ConfigValue, overlay: ConfigValue) -> (r: ConfigValue)
    ensures
        r@ == merged(base@, overlay@),
    decreases overlay,
{
    let ghost whole = overlay;
    match overlay {
        ConfigValue::Table(oe) => match base {
            ConfigValue::Table(be) => {
                let ghost bev = entries_view(be@);
                let ghost oev = entries_view(oe@);
                proof {
                    lemma_entries_view(oe@);
                    assert(oev.take(0) =~= Seq::empty());
                }
                let mut be = be;
                let mut rest = oe;
                let ghost mut j: int = 0;
                while rest.len() > 0
                    invariant
                        0 <= j <= oe@.len(),
                        rest@ == oe@.skip(j),
                        oev == entries_view(oe@),
                        oev.len() == oe@.len(),
                        forall|m: int| 0 <= m < oe@.len() ==> #[trigger] oev[m] == (oe@[m].0@, oe@[m].1@),
                        entries_view(be@) == merged_entries(bev, oev.take(j)),
                        whole == ConfigValue::Table(oe),
                        whole == overlay,
                    decreases rest.len(),
                {
                    let (k, ov) = rest.remove(0);
                    assert(k == oe@[j].0 && ov == oe@[j].1);
                    assert(oev.take(j + 1).drop_last() =~= oev.take(j));
                    let ghost prev = be@;
                    proof {
                        lemma_entries_view(prev);
                        assert(whole->Table_0 == oe);
                        assert(decreases_to!(whole => whole->Table_0));
                        assert(decreases_to!(oe => oe@));
                        assert(decreases_to!(oe@ => oe@[j]));
                        assert(decreases_to!(oe@[j] => oe@[j].1));
                        assert(decreases_to!(whole => ov));
                    }
                    match find_key(&be, k.as_str()) {
                        Some(i) => {
                            proof {
                                lemma_key_index(entries_view(prev), k@);
                            }
                            let (bk, bv) = be.remove(i);
                            assert(bk == prev[i as int].0 && bv == prev[i as int].1);
                            let m = merged_value(bv, ov);
                            be.insert(i, (bk, m));
                            proof {
                                assert(be@ =~= prev.update(i as int, (bk, m)));
                                lemma_entries_view(be@);
                                assert(entries_view(be@) =~= merged_entries(bev, oev.take(j + 1)));
                            }
                        },
                        None => {
                            be.push((k, ov));
                            proof {
                                lemma_entries_view(be@);
                                assert(entries_view(be@) =~= merged_entries(bev, oev.take(j + 1)));
                            }
                        },
                    }
                    proof {
                        j = j + 1;
                    }
                    assert(rest@ =~= oe@.skip(j));
                }
                assert(oev.take(j) =~= oev);
                ConfigValue::Table(be)
            },
            _ => ConfigValue::Table(oe),
        },
        other => other,
    }
}

/// Overlays `overlay` onto `base`, recursing into tables so that a section
/// that sets one field leaves every other at the value it already held.
pub fn merge(base: &mut ConfigValue, overlay: ConfigValue)
    ensures
        final(base)@ == merged(old(base)@, overlay@),
{
    let mut b = ConfigValue::Null;
    std::mem::swap(&mut b, base);
    *base = merged_value(b, overlay);
}

} // verus!

verus! {

/// The value of the first entry named `k`.
pub open spec fn value_at(es: Seq<(Seq<char>, ValueView)>, k: Seq<char>) -> Option<ValueView> {
    match key_index(es, k) {
        Some(i) => Some(es[i].1),
        None => None,
    }
}

/// Whether no two entries share a name.
pub open spec fn unique_keys(es: Seq<(Seq<char>, ValueView)>) -> bool {
    forall|i: int, j: int|
        0 <= i < es.len() && 0 <= j < es.len() && i != j ==> (#[trigger] es[i]).0 != (
        #[trigger] es[j]).0
}

/// Whether every table met walking `p` down from `v` names its entries
/// once.
pub open spec fn unique_along(v: ValueView, p: Seq<Seq<char>>) -> bool
    decreases p.len(),
{
    p.len() == 0 || match v {
        ValueView::Table(es) => unique_keys(es) && match key_index(es, p[0]) {
            Some(i) => unique_along(es[i].1, p.drop_first()),
            None => true,
        },
        _ => true,
    }
}

/// Whether walking `p` down from the table `v` reaches a table without the
/// next entry: `v` says nothing about `p`.
pub open spec fn misses(v: ValueView, p: Seq<Seq<char>>) -> bool
    decreases p.len(),
{
    p.len() > 0 && match v {
        ValueView::Table(es) => match key_index(es, p[0]) {
            None => true,
            Some(i) => misses(es[i].1, p.drop_first()),
        },
        _ => false,
    }
}

proof fn lemma_value_at_update(
    es: Seq<(Seq<char>, ValueView)>,
    i: int,
    k2: Seq<char>,
    x: ValueView,
    k: Seq<char>,
)
    requires
        key_index(es, k2) == Some(i),
    ensures
        value_at(es.update(i, (k2, x)), k) == if k == k2 {
            Some(x)
        } else {
            value_at(es, k)
        },
{
    lemma_key_index(es, k2);
    let es2 = es.update(i, (k2, x));
    if k == k2 {
        assert forall|j: int| 0 <= j < i implies (#[trigger] es2[j]).0 != k by {
            assert(es2[j] == es[j]);
        }
        lemma_key_index_at(es2, k, i);
    } else {
        lemma_key_index(es, k);
        match key_index(es, k) {
            Some(m) => {
                assert(m != i);
                assert forall|j: int| 0 <= j < m implies (#[trigger] es2[j]).0 != k by {
                    if j != i {
                        assert(es2[j] == es[j]);
                    }
                }
                lemma_key_index_at(es2, k, m);
            },
            None => {
                assert forall|j: int| 0 <= j < es2.len() implies (#[trigger] es2[j]).0 != k by {
                    if j != i {
                        assert(es2[j] == es[j]);
                    }
                }
                lemma_key_index_none(es2, k);
            },
        }
    }
}

proof fn lemma_value_at_push(es: Seq<(Seq<char>, ValueView)>, k2: Seq<char>, x: ValueView, k: Seq<char>)
    requires
        key_index(es, k2) is None,
    ensures
        value_at(es.push((k2, x)), k) == if k == k2 {
            Some(x)
        } else {
            value_at(es, k)
        },
{
    lemma_key_index(es, k2);
    lemma_key_index(es, k);
    let es2 = es.push((k2, x));
    if k == k2 {
        assert forall|j: int| 0 <= j < es.len() implies (#[trigger] es2[j]).0 != k by {
            assert(es2[j] == es[j]);
        }
        lemma_key_index_at(es2, k, es.len() as int);
    } else {
        match key_index(es, k) {
            Some(m) => {
                assert forall|j: int| 0 <= j < m implies (#[trigger] es2[j]).0 != k by {
                    assert(es2[j] == es[j]);
                }
                lemma_key_index_at(es2, k, m);
            },
            None => {
                assert forall|j: int| 0 <= j < es2.len() implies (#[trigger] es2[j]).0 != k by {
                    if j < es.len() {
                        assert(es2[j] == es[j]);
                    }
                }
                lemma_key_index_none(es2, k);
            },
        }
    }
}

proof fn lemma_value_at_last(es: Seq<(Seq<char>, ValueView)>, k: Seq<char>)
    requires
        es.len() > 0,
        unique_keys(es),
    ensures
        value_at(es, k) == if k == es.last().0 {
            Some(es.last().1)
        } else {
            value_at(es.drop_last(), k)
        },
        unique_keys(es.drop_last()),
        value_at(es.drop_last(), es.last().0) is None,
{
    let init = es.drop_last();
    assert forall|i: int, j: int|
        0 <= i < init.len() && 0 <= j < init.len() && i != j implies (#[trigger] init[i]).0 != (
        #[trigger] init[j]).0 by {
        assert(init[i] == es[i] && init[j] == es[j]);
    }
    assert(es =~= init.push(es.last()));
    assert forall|j: int| 0 <= j < init.len() implies (#[trigger] init[j]).0 != es.last().0 by {
        assert(init[j] == es[j]);
        assert(es[j].0 != es[es.len() - 1].0);
    }
    lemma_key_index_none(init, es.last().0);
    if k == es.last().0 {
    } else {
        lemma_key_index(init, es.last().0);
        if let Some(m) = key_index(init, es.last().0) {
            assert(init[m] == es[m]);
            assert(es[m].0 != es[es.len() - 1].0);
        }
    }
    lemma_value_at_push(init, es.last().0, es.last().1, k);
}

/// What overlaying entries leaves under one name: the overlaid value when
/// the overlay names it, overlaid in turn on the base's value if there is
/// one, and the base's own value otherwise.
pub proof fn lemma_merged_value_at(
    be: Seq<(Seq<char>, ValueView)>,
    oe: Seq<(Seq<char>, ValueView)>,
    k: Seq<char>,
)
    requires
        unique_keys(oe),
    ensures
        value_at(merged_entries(be, oe), k) == match value_at(oe, k) {
            None => value_at(be, k),
            Some(ov) => Some(
                match value_at(be, k) {
                    Some(bv) => merged(bv, ov),
                    None => ov,
                },
            ),
        },
    decreases oe.len(),
{
    if oe.len() == 0 {
        lemma_key_index_none(oe, k);
    } else {
        lemma_value_at_last(oe, k);
        let init = oe.drop_last();
        let rest = merged_entries(be, init);
        let k2 = oe[oe.len() - 1].0;
        let v2 = oe[oe.len() - 1].1;
        lemma_merged_value_at(be, init, k);
        match key_index(rest, k2) {
            Some(i) => {
                lemma_key_index(rest, k2);
                lemma_value_at_update(rest, i, k2, merged(rest[i].1, v2), k);
                if k == k2 {
                    lemma_merged_value_at(be, init, k2);
                }
            },
            None => {
                lemma_value_at_push(rest, k2, v2, k);
                if k == k2 {
                    lemma_merged_value_at(be, init, k2);
                }
            },
        }
    }
}

/// Overlaying keeps a table's entries named once each.
pub proof fn lemma_merged_unique(be: Seq<(Seq<char>, ValueView)>, oe: Seq<(Seq<char>, ValueView)>)
    requires
        unique_keys(be),
    ensures
        unique_keys(merged_entries(be, oe)),
    decreases oe.len(),
{
    if oe.len() > 0 {
        let rest = merged_entries(be, oe.drop_last());
        lemma_merged_unique(be, oe.drop_last());
        let k2 = oe[oe.len() - 1].0;
        let v2 = oe[oe.len() - 1].1;
        lemma_key_index(rest, k2);
        match key_index(rest, k2) {
            Some(i) => {
                let r2 = rest.update(i, (k2, merged(rest[i].1, v2)));
                assert forall|a: int, b: int|
                    0 <= a < r2.len() && 0 <= b < r2.len() && a != b implies (#[trigger] r2[a]).0
                    != (#[trigger] r2[b]).0 by {
                    assert(r2[a].0 == rest[a].0 && r2[b].0 == rest[b].0);
                }
            },
            None => {
                let r2 = rest.push((k2, v2));
                assert forall|a: int, b: int|
                    0 <= a < r2.len() && 0 <= b < r2.len() && a != b implies (#[trigger] r2[a]).0
                    != (#[trigger] r2[b]).0 by {
                    if a < rest.len() {
                        assert(r2[a] == rest[a]);
                    }
                    if b < rest.len() {
                        assert(r2[b] == rest[b]);
                    }
                }
            },
        }
    }
}

proof fn lemma_lookup_table(es: Seq<(Seq<char>, ValueView)>, p: Seq<Seq<char>>)
    requires
        p.len() > 0,
    ensures
        lookup(ValueView::Table(es), p) == match value_at(es, p[0]) {
            Some(c) => lookup(c, p.drop_first()),
            None => None,
        },
{
}

proof fn lemma_misses_finds_nothing(v: ValueView, p: Seq<Seq<char>>)
    requires
        misses(v, p),
    ensures
        lookup(v, p) is None,
    decreases p.len(),
{
    if let ValueView::Table(es) = v {
        if let Some(i) = key_index(es, p[0]) {
            lemma_misses_finds_nothing(es[i].1, p.drop_first());
        }
    }
}

/// A layer decides every value it sets: where the overlay holds a value
/// other than a table, the merged tree holds that value.
pub proof fn law_overlay_value_wins(b: ValueView, o: ValueView, p: Seq<Seq<char>>, x: ValueView)
    requires
        unique_along(o, p),
        lookup(o, p) == Some(x),
        !(x is Table),
    ensures
        lookup(merged(b, o), p) == Some(x),
    decreases p.len(),
{
    if p.len() > 0 {
        if let ValueView::Table(oe) = o {
            if let ValueView::Table(be) = b {
                let k = p[0];
                lemma_merged_value_at(be, oe, k);
                lemma_lookup_table(oe, p);
                lemma_lookup_table(merged_entries(be, oe), p);
                let ov = value_at(oe, k)->0;
                match value_at(be, k) {
                    Some(bv) => {
                        law_overlay_value_wins(bv, ov, p.drop_first(), x);
                    },
                    None => {},
                }
            }
        }
    }
}

/// A layer leaves alone what it does not mention: where walking the path
/// through the overlay finds no entry, the merged tree holds what the base
/// held.
pub proof fn law_overlay_keeps_unmentioned(b: ValueView, o: ValueView, p: Seq<Seq<char>>)
    requires
        unique_along(o, p),
        misses(o, p),
    ensures
        lookup(merged(b, o), p) == lookup(b, p),
    decreases p.len(),
{
    if let ValueView::Table(oe) = o {
        match b {
            ValueView::Table(be) => {
                let k = p[0];
                lemma_merged_value_at(be, oe, k);
                lemma_lookup_table(oe, p);
                lemma_lookup_table(merged_entries(be, oe), p);
                lemma_lookup_table(be, p);
                match value_at(oe, k) {
                    None => {},
                    Some(ov) => {
                        match value_at(be, k) {
                            Some(bv) => {
                                law_overlay_keeps_unmentioned(bv, ov, p.drop_first());
                            },
                            None => {
                                lemma_misses_finds_nothing(ov, p.drop_first());
                            },
                        }
                    },
                }
            },
            _ => {
                lemma_misses_finds_nothing(o, p);
            },
        }
    }
}

} // verus!

verus! {

/// The leaves of `v` below `prefix`, in order: each value that is not a
/// table, with the path that reaches it. A table without entries has none.
pub open spec fn leaves(v: ValueView, prefix: Seq<Seq<char>>) -> Seq<(Seq<Seq<char>>, ValueView)>
    decreases v,
{
    match v {
        ValueView::Table(es) => leaves_of_entries(es, prefix),
        _ => seq![(prefix, v)],
    }
}

/// The leaves below each entry of a table, entry after entry.
pub open spec fn leaves_of_entries(
    es: Seq<(Seq<char>, ValueView)>,
    prefix: Seq<Seq<char>>,
) -> Seq<(Seq<Seq<char>>, ValueView)>
    decreases es,
{
    if es.len() == 0 {
        Seq::empty()
    } else {
        leaves_of_entries(es.drop_last(), prefix) + leaves(
            es[es.len() - 1].1,
            prefix.push(es[es.len() - 1].0),
        )
    }
}

/// The view of a list of leaves.
pub open spec fn leaf_list_view(out: Seq<(Vec<String>, ConfigValue)>) -> Seq<
    (Seq<Seq<char>>, ValueView),
> {
    out.map_values(|l: (Vec<String>, ConfigValue)| (path_view(l.0@), l.1@))
}

/// A copy of `path`.
pub fn copy_path(path: &Vec<String>) -> (r: Vec<String>)
    ensures
        path_view(r@) == path_view(path@),
{
    let mut r: Vec<String> = Vec::new();
    let mut i: usize = 0;
    while i < path.len()
        invariant
            i <= path.len(),
            r@.len() == i,
            forall|j: int| 0 <= j < i ==> (#[trigger] r@[j])@ == path@[j]@,
        decreases path.len() - i,
    {
        r.push(owned(path[i].as_str()));
        i = i + 1;
    }
    assert(path_view(r@) =~= path_view(path@));
    r
}

impl ConfigValue {
    /// A copy of this value.
    pub fn duplicate(&self) -> (r: ConfigValue)
        ensures
            r@ == self@,
        decreases self,
    {
        match self {
            ConfigValue::Null => ConfigValue::Null,
            ConfigValue::Bool(b) => ConfigValue::Bool(*b),
            ConfigValue::Integer(i) => ConfigValue::Integer(*i),
            ConfigValue::Number(n) => ConfigValue::Number(owned(n.as_str())),
            ConfigValue::Text(t) => ConfigValue::Text(owned(t.as_str())),
            ConfigValue::Array(a) => ConfigValue::Array(owned(a.as_str())),
            ConfigValue::Table(es) => {
                let mut copy: Vec<(String, ConfigValue)> = Vec::new();
                let mut i: usize = 0;
                while i < es.len()
                    invariant
                        i <= es.len(),
                        copy@.len() == i,
                        forall|j: int|
                            0 <= j < i ==> (#[trigger] copy@[j]).0@ == es@[j].0@ && copy@[j].1@
                                == es@[j].1@,
                        *self == ConfigValue::Table(*es),
                    decreases es.len() - i,
                {
                    proof {
                        assert(decreases_to!(self => self->Table_0));
                        assert(decreases_to!(self->Table_0 => self->Table_0@));
                        assert(decreases_to!(es@ => es@[i as int]));
                        assert(decreases_to!(es@[i as int] => es@[i as int].1));
                    }
                    let child = es[i].1.duplicate();
                    copy.push((owned(es[i].0.as_str()), child));
                    i = i + 1;
                }
                proof {
                    lemma_entries_view(copy@);
                    lemma_entries_view(es@);
                    assert(entries_view(copy@) =~= entries_view(es@));
                }
                ConfigValue::Table(copy)
            },
        }
    }

    /// Whether this value is a table.
    pub fn is_table(&self) -> (b: bool)
        ensures
            b == (self@ is Table),
    {
        match self {
            ConfigValue::Table(_) => true,
            _ => false,
        }
    }
}

/// Appends to `out` the leaves of `value` below `prefix`, each with the
/// value it holds, which serves as a template for parsing.
pub fn leaf_paths(
    value: &ConfigValue,
    prefix: &mut Vec<String>,
    out: &mut Vec<(Vec<String>, ConfigValue)>,
)
    ensures
        path_view(final(prefix)@) == path_view(old(prefix)@),
        leaf_list_view(final(out)@) == leaf_list_view(old(out)@) + leaves(
            value@,
            path_view(old(prefix)@),
        ),
    decreases value,
{
    match value {
        ConfigValue::Table(es) => {
            let ghost pre = path_view(prefix@);
            let ghost out0 = leaf_list_view(out@);
            proof {
                lemma_entries_view(es@);
                assert(entries_view(es@).take(0) =~= Seq::empty());
                assert(out0 + leaves_of_entries(Seq::empty(), pre) =~= out0);
            }
            let mut i: usize = 0;
            while i < es.len()
                invariant
                    i <= es.len(),
                    path_view(prefix@) == pre,
                    entries_view(es@).len() == es@.len(),
                    forall|j: int|
                        0 <= j < es@.len() ==> #[trigger] entries_view(es@)[j] == (
                            es@[j].0@,
                            es@[j].1@,
                        ),
                    leaf_list_view(out@) == out0 + leaves_of_entries(
                        entries_view(es@).take(i as int),
                        pre,
                    ),
                    value@ == ValueView::Table(entries_view(es@)),
                    *value == ConfigValue::Table(*es),
                decreases es.len() - i,
            {
                proof {
                    assert(decreases_to!(value => value->Table_0));
                    assert(decreases_to!(value->Table_0 => value->Table_0@));
                    assert(decreases_to!(es@ => es@[i as int]));
                    assert(decreases_to!(es@[i as int] => es@[i as int].1));
                }
                let ghost before = leaf_list_view(out@);
                prefix.push(owned(es[i].0.as_str()));
                assert(path_view(prefix@) =~= pre.push(es@[i as int].0@));
                leaf_paths(&es[i].1, prefix, out);
                let ghost full = prefix@;
                prefix.pop();
                proof {
                    assert(path_view(full.drop_last()) =~= path_view(full).drop_last());
                    assert(path_view(prefix@) =~= pre);
                    let ev = entries_view(es@);
                    assert(ev.take(i + 1).drop_last() =~= ev.take(i as int));
                    assert(ev.take(i + 1)[i as int] == ev[i as int]);
                    assert(leaves_of_entries(ev.take(i + 1), pre) == leaves_of_entries(
                        ev.take(i as int),
                        pre,
                    ) + leaves(ev[i as int].1, pre.push(ev[i as int].0)));
                    assert(leaf_list_view(out@) =~= out0 + leaves_of_entries(ev.take(i + 1), pre));
                }
                i = i + 1;
            }
            proof {
                assert(entries_view(es@).take(es@.len() as int) =~= entries_view(es@));
            }
        },
        _ => {
            let path = copy_path(prefix);
            let leaf = value.duplicate();
            let ghost before = out@;
            out.push((path, leaf));
            proof {
                assert(leaf_list_view(out@) =~= leaf_list_view(before) + seq![
                    (path_view(prefix@), value@),
                ]);
            }
        },
    }
}

} // verus!

verus! {

/// Every leaf path is at least as long as its prefix, and longer when the
/// value is a table.
pub proof fn lemma_leaf_path_lengths(v: ValueView, prefix: Seq<Seq<char>>)
    ensures
        forall|i: int|
            0 <= i < leaves(v, prefix).len() ==> (#[trigger] leaves(v, prefix)[i]).0.len()
                >= prefix.len(),
        v is Table ==> forall|i: int|
            0 <= i < leaves(v, prefix).len() ==> (#[trigger] leaves(v, prefix)[i]).0.len()
                > prefix.len(),
        forall|i: int|
            0 <= i < leaves(v, prefix).len() ==> !((#[trigger] leaves(v, prefix)[i]).1 is Table),
    decreases v,
{
    if let ValueView::Table(es) = v {
        lemma_entry_leaf_path_lengths(es, prefix);
        assert(leaves(v, prefix) == leaves_of_entries(es, prefix));
    } else {
        assert(leaves(v, prefix) == seq![(prefix, v)]);
        assert forall|i: int|
            0 <= i < leaves(v, prefix).len() implies (#[trigger] leaves(v, prefix)[i]).0.len()
            >= prefix.len() && !(leaves(v, prefix)[i].1 is Table) by {
            assert(leaves(v, prefix)[i] == (prefix, v));
        }
    }
}

/// Every leaf path below a table's entries is longer than the prefix.
pub proof fn lemma_entry_leaf_path_lengths(es: Seq<(Seq<char>, ValueView)>, prefix: Seq<Seq<char>>)
    ensures
        forall|i: int|
            0 <= i < leaves_of_entries(es, prefix).len() ==> (#[trigger] leaves_of_entries(
                es,
                prefix,
            )[i]).0.len() > prefix.len() && !(leaves_of_entries(es, prefix)[i].1 is Table),
    decreases es,
{
    if es.len() > 0 {
        let init = es.drop_last();
        let k = es[es.len() - 1].0;
        let c = es[es.len() - 1].1;
        lemma_entry_leaf_path_lengths(init, prefix);
        lemma_leaf_path_lengths(c, prefix.push(k));
        let a = leaves_of_entries(init, prefix);
        let b = leaves(c, prefix.push(k));
        assert forall|i: int|
            0 <= i < leaves_of_entries(es, prefix).len() implies (
            #[trigger] leaves_of_entries(es, prefix)[i]).0.len() > prefix.len() && !(
            leaves_of_entries(es, prefix)[i].1 is Table) by {
            if i < a.len() {
                assert(leaves_of_entries(es, prefix)[i] == a[i]);
            } else {
                assert(leaves_of_entries(es, prefix)[i] == b[i - a.len()]);
            }
        }
    }
}

/// Whether neither path begins the other: they lead to different places.
pub open spec fn diverge(p: Seq<Seq<char>>, q: Seq<Seq<char>>) -> bool {
    exists|i: int| 0 <= i < p.len() && i < q.len() && p[i] != q[i]
}

/// Whether every table within `v`, `v` itself included, names its entries
/// once.
pub open spec fn unique_throughout(v: ValueView) -> bool
    decreases v,
{
    match v {
        ValueView::Table(es) => unique_keys(es) && entries_unique_throughout(es),
        _ => true,
    }
}

/// Whether every table within the values of `es` names its entries once.
pub open spec fn entries_unique_throughout(es: Seq<(Seq<char>, ValueView)>) -> bool
    decreases es,
{
    if es.len() == 0 {
        true
    } else {
        entries_unique_throughout(es.drop_last()) && unique_throughout(es[es.len() - 1].1)
    }
}

/// Whether the leaves' paths lead to different places.
pub open spec fn distinct_leaf_paths(leaves: Seq<(Seq<Seq<char>>, ValueView)>) -> bool {
    forall|i: int, j: int|
        0 <= i < leaves.len() && 0 <= j < leaves.len() && i != j ==> diverge(
            #[trigger] leaves[i].0,
            #[trigger] leaves[j].0,
        )
}

/// Every leaf path begins with its prefix.
proof fn lemma_leaves_extend(v: ValueView, prefix: Seq<Seq<char>>)
    ensures
        forall|i: int|
            0 <= i < leaves(v, prefix).len() ==> (#[trigger] leaves(v, prefix)[i]).0.len()
                >= prefix.len() && leaves(v, prefix)[i].0.subrange(0, prefix.len() as int)
                == prefix,
    decreases v,
{
    if let ValueView::Table(es) = v {
        lemma_entry_leaves_extend(es, prefix);
        assert(leaves(v, prefix) == leaves_of_entries(es, prefix));
    } else {
        assert(leaves(v, prefix) == seq![(prefix, v)]);
        assert forall|i: int| 0 <= i < leaves(v, prefix).len() implies (#[trigger] leaves(
            v,
            prefix,
        )[i]).0.len() >= prefix.len() && leaves(v, prefix)[i].0.subrange(0, prefix.len() as int)
            == prefix by {
            assert(leaves(v, prefix)[i] == (prefix, v));
            assert(prefix.subrange(0, prefix.len() as int) =~= prefix);
        }
    }
}

/// Every leaf path below a table's entries begins with the prefix, then the
/// name of one of the entries.
proof fn lemma_entry_leaves_extend(es: Seq<(Seq<char>, ValueView)>, prefix: Seq<Seq<char>>)
    ensures
        forall|i: int|
            0 <= i < leaves_of_entries(es, prefix).len() ==> {
                let p = (#[trigger] leaves_of_entries(es, prefix)[i]).0;
                &&& p.len() > prefix.len()
                &&& p.subrange(0, prefix.len() as int) == prefix
                &&& exists|m: int| 0 <= m < es.len() && (#[trigger] es[m]).0 == p[prefix.len() as int]
            },
    decreases es,
{
    if es.len() > 0 {
        let init = es.drop_last();
        let n = es.len() - 1;
        let k = es[n].0;
        let c = es[n].1;
        let q = prefix.push(k);
        lemma_entry_leaves_extend(init, prefix);
        lemma_leaves_extend(c, q);
        let a = leaves_of_entries(init, prefix);
        let b = leaves(c, q);
        assert forall|i: int| 0 <= i < leaves_of_entries(es, prefix).len() implies {
            let p = (#[trigger] leaves_of_entries(es, prefix)[i]).0;
            &&& p.len() > prefix.len()
            &&& p.subrange(0, prefix.len() as int) == prefix
            &&& exists|m: int| 0 <= m < es.len() && (#[trigger] es[m]).0 == p[prefix.len() as int]
        } by {
            let p = leaves_of_entries(es, prefix)[i].0;
            if i < a.len() {
                assert(leaves_of_entries(es, prefix)[i] == a[i]);
                let m = choose|m: int| 0 <= m < init.len() && (#[trigger] init[m]).0 == p[prefix.len() as int];
                assert(es[m] == init[m]);
            } else {
                assert(leaves_of_entries(es, prefix)[i] == b[i - a.len()]);
                assert(p.subrange(0, q.len() as int) == q);
                assert(p[prefix.len() as int] == p.subrange(0, q.len() as int)[prefix.len() as int]);
                assert(q[prefix.len() as int] == k);
                assert(p.subrange(0, prefix.len() as int) =~= q.subrange(0, prefix.len() as int));
                assert(q.subrange(0, prefix.len() as int) =~= prefix);
                assert(es[n].0 == p[prefix.len() as int]);
            }
        }
    }
}

/// The leaves of a value whose tables name each entry once lead to
/// different places.
pub proof fn lemma_leaves_distinct(v: ValueView, prefix: Seq<Seq<char>>)
    requires
        unique_throughout(v),
    ensures
        distinct_leaf_paths(leaves(v, prefix)),
    decreases v,
{
    if let ValueView::Table(es) = v {
        lemma_entry_leaves_distinct(es, prefix);
        assert(leaves(v, prefix) == leaves_of_entries(es, prefix));
    } else {
        assert(leaves(v, prefix).len() == 1);
    }
}

/// The leaves below the entries of a table that names each entry once, and
/// whose values do so throughout, lead to different places.
proof fn lemma_entry_leaves_distinct(es: Seq<(Seq<char>, ValueView)>, prefix: Seq<Seq<char>>)
    requires
        unique_keys(es),
        entries_unique_throughout(es),
    ensures
        distinct_leaf_paths(leaves_of_entries(es, prefix)),
    decreases es,
{
    if es.len() > 0 {
        let init = es.drop_last();
        let n = es.len() - 1;
        let k = es[n].0;
        let c = es[n].1;
        let q = prefix.push(k);
        assert(unique_keys(init)) by {
            assert forall|i: int, j: int|
                0 <= i < init.len() && 0 <= j < init.len() && i != j implies (#[trigger] init[i]).0
                != (#[trigger] init[j]).0 by {
                assert(init[i] == es[i] && init[j] == es[j]);
            }
        }
        lemma_entry_leaves_distinct(init, prefix);
        lemma_leaves_distinct(c, q);
        lemma_entry_leaves_extend(init, prefix);
        lemma_leaves_extend(c, q);
        let a = leaves_of_entries(init, prefix);
        let b = leaves(c, q);
        let all = leaves_of_entries(es, prefix);
        assert(all == a + b);
        let d = prefix.len() as int;
        assert forall|i: int, j: int|
            0 <= i < all.len() && 0 <= j < all.len() && i != j implies diverge(
            #[trigger] all[i].0,
            #[trigger] all[j].0,
        ) by {
            if i < a.len() && j < a.len() {
                assert(all[i] == a[i] && all[j] == a[j]);
            } else if i >= a.len() && j >= a.len() {
                assert(all[i] == b[i - a.len()] && all[j] == b[j - a.len()]);
            } else {
                let (x, y) = if i < a.len() {
                    (i, j)
                } else {
                    (j, i)
                };
                assert(all[x] == a[x] && all[y] == b[y - a.len()]);
                let px = a[x].0;
                let py = b[y - a.len()].0;
                let m = choose|m: int| 0 <= m < init.len() && (#[trigger] init[m]).0 == px[d];
                assert(init[m] == es[m]);
                assert(py.subrange(0, q.len() as int) == q);
                assert(py[d] == py.subrange(0, q.len() as int)[d]);
                assert(q[d] == k);
                assert(px[d] != py[d]);
                assert(diverge(px, py));
                assert(diverge(py, px)) by {
                    assert(0 <= d < py.len() && d < px.len() && py[d] != px[d]);
                }
            }
        }
    }
}

/// Each leaf of a value whose tables name each entry once is found again
/// at its path, read below the prefix.
pub proof fn lemma_leaves_lookup(v: ValueView, prefix: Seq<Seq<char>>)
    requires
        unique_throughout(v),
    ensures
        forall|i: int|
            0 <= i < leaves(v, prefix).len() ==> lookup(
                v,
                (#[trigger] leaves(v, prefix)[i]).0.skip(prefix.len() as int),
            ) == Some(leaves(v, prefix)[i].1),
    decreases v,
{
    if let ValueView::Table(es) = v {
        lemma_entry_leaves_lookup(es, prefix);
        assert(leaves(v, prefix) == leaves_of_entries(es, prefix));
    } else {
        assert(leaves(v, prefix) == seq![(prefix, v)]);
        assert forall|i: int| 0 <= i < leaves(v, prefix).len() implies lookup(
            v,
            (#[trigger] leaves(v, prefix)[i]).0.skip(prefix.len() as int),
        ) == Some(leaves(v, prefix)[i].1) by {
            assert(leaves(v, prefix)[i] == (prefix, v));
            assert(prefix.skip(prefix.len() as int).len() == 0);
        }
    }
}

/// Each leaf below the entries of a table that names each entry once is
/// found again in the table at its path, read below the prefix.
proof fn lemma_entry_leaves_lookup(es: Seq<(Seq<char>, ValueView)>, prefix: Seq<Seq<char>>)
    requires
        unique_keys(es),
        entries_unique_throughout(es),
    ensures
        forall|i: int|
            0 <= i < leaves_of_entries(es, prefix).len() ==> lookup(
                ValueView::Table(es),
                (#[trigger] leaves_of_entries(es, prefix)[i]).0.skip(prefix.len() as int),
            ) == Some(leaves_of_entries(es, prefix)[i].1),
    decreases es,
{
    if es.len() > 0 {
        let init = es.drop_last();
        let n = es.len() - 1;
        let k = es[n].0;
        let c = es[n].1;
        let q = prefix.push(k);
        let d = prefix.len() as int;
        assert(unique_keys(init)) by {
            assert forall|i: int, j: int|
                0 <= i < init.len() && 0 <= j < init.len() && i != j implies (#[trigger] init[i]).0
                != (#[trigger] init[j]).0 by {
                assert(init[i] == es[i] && init[j] == es[j]);
            }
        }
        lemma_entry_leaves_lookup(init, prefix);
        lemma_leaves_lookup(c, q);
        lemma_entry_leaves_extend(init, prefix);
        lemma_leaves_extend(c, q);
        let a = leaves_of_entries(init, prefix);
        let b = leaves(c, q);
        let all = leaves_of_entries(es, prefix);
        assert(all == a + b);
        assert forall|i: int| 0 <= i < all.len() implies lookup(
            ValueView::Table(es),
            (#[trigger] all[i]).0.skip(d),
        ) == Some(all[i].1) by {
            let path = all[i].0;
            let rest = path.skip(d);
            if i < a.len() {
                assert(all[i] == a[i]);
                let m = choose|m: int| 0 <= m < init.len() && (#[trigger] init[m]).0 == path[d];
                assert(rest[0] == path[d]);
                lemma_key_index(init, rest[0]);
                let f = key_index(init, rest[0])->0;
                assert forall|j: int| 0 <= j < f implies (#[trigger] es[j]).0 != rest[0] by {
                    assert(es[j] == init[j]);
                }
                assert(es[f] == init[f]);
                lemma_key_index_at(es, rest[0], f);
                lemma_lookup_table(es, rest);
                lemma_lookup_table(init, rest);
            } else {
                assert(all[i] == b[i - a.len()]);
                assert(path.subrange(0, q.len() as int) == q);
                assert(path[d] == path.subrange(0, q.len() as int)[d]);
                assert(rest[0] == k);
                assert forall|j: int| 0 <= j < n implies (#[trigger] es[j]).0 != k by {}
                lemma_key_index_at(es, k, n);
                lemma_lookup_table(es, rest);
                assert(rest.drop_first() =~= path.skip(q.len() as int));
            }
        }
    }
}

/// Writing at one path leaves alone every path that diverges from it.
pub proof fn law_insert_keeps_other_paths(
    t: ValueView,
    p: Seq<Seq<char>>,
    v: ValueView,
    q: Seq<Seq<char>>,
)
    requires
        diverge(p, q),
    ensures
        lookup(inserted(t, p, v), q) == lookup(t, q),
    decreases p.len(),
{
    let i = choose|i: int| 0 <= i < p.len() && i < q.len() && p[i] != q[i];
    let es = match t {
        ValueView::Table(es) => es,
        _ => Seq::empty(),
    };
    lemma_key_index(es, p[0]);
    if p[0] == q[0] {
        assert(i > 0);
        assert(diverge(p.drop_first(), q.drop_first())) by {
            assert(p.drop_first()[i - 1] != q.drop_first()[i - 1]);
        }
        match key_index(es, p[0]) {
            Some(m) => {
                lemma_value_at_update(es, m, p[0], inserted(es[m].1, p.drop_first(), v), q[0]);
                law_insert_keeps_other_paths(es[m].1, p.drop_first(), v, q.drop_first());
                lemma_lookup_table(es.update(m, (p[0], inserted(es[m].1, p.drop_first(), v))), q);
                if t is Table {
                    lemma_lookup_table(es, q);
                }
            },
            None => {
                let fresh = ValueView::Table(Seq::<(Seq<char>, ValueView)>::empty());
                lemma_value_at_push(es, p[0], inserted(fresh, p.drop_first(), v), q[0]);
                law_insert_keeps_other_paths(fresh, p.drop_first(), v, q.drop_first());
                lemma_lookup_table(es.push((p[0], inserted(fresh, p.drop_first(), v))), q);
                lemma_key_index_none(Seq::<(Seq<char>, ValueView)>::empty(), q[1]);
                if q.len() > 1 {
                    lemma_lookup_table(Seq::<(Seq<char>, ValueView)>::empty(), q.drop_first());
                }
                if t is Table {
                    lemma_lookup_table(es, q);
                }
            },
        }
    } else {
        match key_index(es, p[0]) {
            Some(m) => {
                lemma_value_at_update(es, m, p[0], inserted(es[m].1, p.drop_first(), v), q[0]);
                lemma_lookup_table(es.update(m, (p[0], inserted(es[m].1, p.drop_first(), v))), q);
            },
            None => {
                let fresh = ValueView::Table(Seq::<(Seq<char>, ValueView)>::empty());
                lemma_value_at_push(es, p[0], inserted(fresh, p.drop_first(), v), q[0]);
                lemma_lookup_table(es.push((p[0], inserted(fresh, p.drop_first(), v))), q);
            },
        }
        if t is Table {
            lemma_lookup_table(es, q);
        } else {
            lemma_key_index_none(es, q[0]);
        }
    }
}

} // verus!
