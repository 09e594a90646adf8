//! The sketch selection: a single selected item and a set of selected items, kept in the
//! order components, nets, overflow markers, each by name; and the actions on it.
use vstd::prelude::*;
use crate::board::{
    EditErr, EditError, remove_component, remove_component_spec, remove_net, remove_net_spec,
    text_edit, text_outcome,
};
use crate::bundles::SketchNetBundle;
use crate::doc::Yaml;
use crate::naming::{decimal, decimal_string, names};
use crate::order::{lemma_lt_asymmetric, lemma_lt_irreflexive, lemma_lt_total, lemma_lt_transitive, seq_lt, str_lt};
use crate::state::CircuitCiApp;
use crate::text::{str_to_string, text_eq};

verus! {

/// A selectable item of the sketch.
#[derive(Debug, Clone, PartialEq, Eq)]
pub enum SketchSelection {
    Component(String),
    Net(String),
    Overflow(String),
}

/// The mathematical form of a selection: 0 for a component, 1 for a net, 2 for an overflow
/// marker, and the name.
pub open spec fn sel_view(s: SketchSelection) -> (int, Seq<char>) {
    match s {
        SketchSelection::Component(id) => (0, id@),
        SketchSelection::Net(id) => (1, id@),
        SketchSelection::Overflow(id) => (2, id@),
    }
}

pub open spec fn sel_views(v: Seq<SketchSelection>) -> Seq<(int, Seq<char>)> {
    v.map_values(|s: SketchSelection| sel_view(s))
}

pub open spec fn opt_sel_view(s: Option<SketchSelection>) -> Option<(int, Seq<char>)> {
    match s {
        Some(x) => Some(sel_view(x)),
        None => None,
    }
}

/// The order of selections: by kind, then by name.
pub open spec fn sel_lt(a: (int, Seq<char>), b: (int, Seq<char>)) -> bool {
    a.0 < b.0 || (a.0 == b.0 && seq_lt(a.1, b.1))
}

/// A selection set: strictly increasing.
pub open spec fn sel_sorted(v: Seq<(int, Seq<char>)>) -> bool {
    forall|i: int, j: int| 0 <= i < j < v.len() ==> sel_lt(#[trigger] v[i], #[trigger] v[j])
}

/// A set with `x` taken out when it holds it, and put in when it does not.
pub open spec fn toggled(s: Set<(int, Seq<char>)>, x: (int, Seq<char>)) -> Set<(int, Seq<char>)> {
    if s.contains(x) {
        s.remove(x)
    } else {
        s.insert(x)
    }
}

/// Toggling the same item twice gives back the selection set.
pub proof fn law_toggle_twice(s: Set<(int, Seq<char>)>, x: (int, Seq<char>))
    ensures
        toggled(toggled(s, x), x) == s,
{
    if s.contains(x) {
        assert(s.remove(x).insert(x) =~= s);
    } else {
        assert(s.insert(x).remove(x) =~= s);
    }
}

/// The key under which a node's schematic position and style are stored.
pub open spec fn node_key(s: (int, Seq<char>)) -> Option<Seq<char>> {
    if s.0 == 0 {
        Some("component:"@ + s.1)
    } else if s.0 == 1 {
        Some("net:"@ + s.1)
    } else {
        None
    }
}

/// `component:<id>` or `net:<id>`; overflow markers have no key.
pub fn schematic_node_key(selection: &SketchSelection) -> (r: Option<String>)
    ensures
        match r {
            Some(k) => node_key(sel_view(*selection)) == Some(k@),
            None => node_key(sel_view(*selection)) is None,
        },
{
    match selection {
        SketchSelection::Component(id) => {
            let mut k = str_to_string("component:");
            k.append(id.as_str());
            Some(k)
        },
        SketchSelection::Net(id) => {
            let mut k = str_to_string("net:");
            k.append(id.as_str());
            Some(k)
        },
        SketchSelection::Overflow(_) => None,
    }
}

fn copy_selection(s: &SketchSelection) -> (r: SketchSelection)
    ensures
        sel_view(r) == sel_view(*s),
{
    match s {
        SketchSelection::Component(id) => SketchSelection::Component(str_to_string(id.as_str())),
        SketchSelection::Net(id) => SketchSelection::Net(str_to_string(id.as_str())),
        SketchSelection::Overflow(id) => SketchSelection::Overflow(str_to_string(id.as_str())),
    }
}

fn same_selection(a: &SketchSelection, b: &SketchSelection) -> (r: bool)
    ensures
        r == (sel_view(*a) == sel_view(*b)),
{
    match (a, b) {
        (SketchSelection::Component(x), SketchSelection::Component(y)) => text_eq(x.as_str(), y.as_str()),
        (SketchSelection::Net(x), SketchSelection::Net(y)) => text_eq(x.as_str(), y.as_str()),
        (SketchSelection::Overflow(x), SketchSelection::Overflow(y)) => text_eq(x.as_str(), y.as_str()),
        _ => false,
    }
}

fn rank(s: &SketchSelection) -> (r: u8)
    ensures
        r as int == sel_view(*s).0,
{
    match s {
        SketchSelection::Component(_) => 0,
        SketchSelection::Net(_) => 1,
        SketchSelection::Overflow(_) => 2,
    }
}

fn name_of(s: &SketchSelection) -> (r: &str)
    ensures
        r@ == sel_view(*s).1,
{
    match s {
        SketchSelection::Component(id) => id.as_str(),
        SketchSelection::Net(id) => id.as_str(),
        SketchSelection::Overflow(id) => id.as_str(),
    }
}

fn selection_lt(a: &SketchSelection, b: &SketchSelection) -> (r: bool)
    ensures
        r == sel_lt(sel_view(*a), sel_view(*b)),
{
    let ra = rank(a);
    let rb = rank(b);
    ra < rb || (ra == rb && str_lt(name_of(a), name_of(b)))
}

proof fn lemma_sel_lt_transitive(a: (int, Seq<char>), b: (int, Seq<char>), c: (int, Seq<char>))
    requires
        sel_lt(a, b),
        sel_lt(b, c),
    ensures
        sel_lt(a, c),
{
    if a.0 == b.0 && b.0 == c.0 {
        lemma_lt_transitive(a.1, b.1, c.1);
    }
}

proof fn lemma_sel_lt_total(a: (int, Seq<char>), b: (int, Seq<char>))
    requires
        a != b,
    ensures
        sel_lt(a, b) || sel_lt(b, a),
{
    if a.0 == b.0 {
        if a.1 == b.1 {
            assert(a == b);
        }
        lemma_lt_total(a.1, b.1);
    }
}

proof fn lemma_sel_lt_irreflexive(a: (int, Seq<char>))
    ensures
        !sel_lt(a, a),
{
    lemma_lt_irreflexive(a.1);
}

/// Whether the set holds `s`.
fn set_contains(v: &Vec<SketchSelection>, s: &SketchSelection) -> (r: bool)
    ensures
        r == sel_views(v@).contains(sel_view(*s)),
{
    let mut i: usize = 0;
    while i < v.len()
        invariant
            i <= v@.len(),
            forall|k: int| 0 <= k < i ==> sel_view(#[trigger] v@[k]) != sel_view(*s),
        decreases v@.len() - i,
    {
        if same_selection(&v[i], s) {
            assert(sel_views(v@)[i as int] == sel_view(*s));
            return true;
        }
        i = i + 1;
    }
    assert(!sel_views(v@).contains(sel_view(*s))) by {
        if sel_views(v@).contains(sel_view(*s)) {
            let k = choose|k: int| 0 <= k < sel_views(v@).len() && sel_views(v@)[k] == sel_view(*s);
            assert(sel_view(v@[k]) != sel_view(*s));
        }
    }
    false
}

/// Adds `s` to a sorted set in its place.
fn set_insert(v: &mut Vec<SketchSelection>, s: SketchSelection)
    requires
        sel_sorted(sel_views(old(v)@)),
        !sel_views(old(v)@).contains(sel_view(s)),
    ensures
        sel_sorted(sel_views(final(v)@)),
        sel_views(final(v)@).to_set() == sel_views(old(v)@).to_set().insert(sel_view(s)),
{
    let ghost r = sel_views(v@);
    let ghost x = sel_view(s);
    let mut k: usize = 0;
    while k < v.len() && selection_lt(&v[k], &s)
        invariant
            r == sel_views(v@),
            x == sel_view(s),
            sel_sorted(r),
            k <= v@.len(),
            forall|i: int| 0 <= i < k ==> sel_lt(#[trigger] r[i], x),
        decreases v@.len() - k,
    {
        k = k + 1;
    }
    proof {
        if k < r.len() {
            assert(r[k as int] != x) by {
                assert(sel_views(old(v)@)[k as int] == r[k as int]);
            }
            lemma_sel_lt_total(r[k as int], x);
        }
    }
    v.insert(k, s);
    proof {
        let r2 = sel_views(v@);
        assert(r2 =~= r.insert(k as int, x));
        assert forall|i: int, j: int| 0 <= i < j < r2.len() implies sel_lt(#[trigger] r2[i], #[trigger] r2[j]) by {
            if j < k {
                assert(r2[i] == r[i] && r2[j] == r[j]);
            } else if j == k {
                assert(r2[i] == r[i]);
            } else if i == k {
                assert(r2[j] == r[j - 1]);
                if j - 1 > k {
                    assert(sel_lt(r[k as int], r[j - 1]));
                    lemma_sel_lt_transitive(x, r[k as int], r[j - 1]);
                }
            } else if i < k {
                assert(r2[i] == r[i] && r2[j] == r[j - 1]);
            } else {
                assert(r2[i] == r[i - 1] && r2[j] == r[j - 1]);
            }
        }
        assert forall|y: (int, Seq<char>)| r2.to_set().contains(y) implies r.to_set().insert(x).contains(y) by {
            let i = choose|i: int| 0 <= i < r2.len() && r2[i] == y;
            if i < k {
                assert(r[i] == y);
            } else if i > k {
                assert(r[i - 1] == y);
            }
        }
        assert forall|y: (int, Seq<char>)| r.to_set().insert(x).contains(y) implies r2.to_set().contains(y) by {
            if y == x {
                assert(r2[k as int] == x);
            } else {
                let i = choose|i: int| 0 <= i < r.len() && r[i] == y;
                if i < k {
                    assert(r2[i] == y);
                } else {
                    assert(r2[i + 1] == y);
                }
            }
        }
        assert(r2.to_set() =~= r.to_set().insert(x));
    }
}

/// Removes `s` from a sorted set; whether it was there.
fn set_remove(v: &mut Vec<SketchSelection>, s: &SketchSelection) -> (r: bool)
    requires
        sel_sorted(sel_views(old(v)@)),
    ensures
        r == sel_views(old(v)@).contains(sel_view(*s)),
        sel_sorted(sel_views(final(v)@)),
        sel_views(final(v)@).to_set() == sel_views(old(v)@).to_set().remove(sel_view(*s)),
        !r ==> final(v)@ == old(v)@,
{
    let ghost r0 = sel_views(v@);
    let ghost x = sel_view(*s);
    let mut i: usize = 0;
    while i < v.len()
        invariant
            v@ == old(v)@,
            r0 == sel_views(v@),
            sel_sorted(r0),
            x == sel_view(*s),
            i <= v@.len(),
            forall|k: int| 0 <= k < i ==> #[trigger] r0[k] != x,
        decreases v@.len() - i,
    {
        if same_selection(&v[i], s) {
            let _ = v.remove(i);
            proof {
                let r2 = sel_views(v@);
                assert(r2 =~= r0.remove(i as int));
                assert forall|a: int, b: int| 0 <= a < b < r2.len() implies sel_lt(#[trigger] r2[a], #[trigger] r2[b]) by {
                    let a0 = if a < i { a } else { a + 1 };
                    let b0 = if b < i { b } else { b + 1 };
                    assert(r2[a] == r0[a0] && r2[b] == r0[b0]);
                }
                assert forall|y: (int, Seq<char>)| r2.to_set().contains(y) implies r0.to_set().remove(x).contains(y) by {
                    let k = choose|k: int| 0 <= k < r2.len() && r2[k] == y;
                    let k0 = if k < i { k } else { k + 1 };
                    assert(r0[k0] == y);
                    if y == x {
                        assert(sel_lt(r0[i as int], r0[k0]) || sel_lt(r0[k0], r0[i as int]));
                        lemma_sel_lt_irreflexive(x);
                    }
                }
                assert forall|y: (int, Seq<char>)| r0.to_set().remove(x).contains(y) implies r2.to_set().contains(y) by {
                    let k = choose|k: int| 0 <= k < r0.len() && r0[k] == y;
                    if k < i {
                        assert(r2[k] == y);
                    } else if k > i {
                        assert(r2[k - 1] == y);
                    }
                }
                assert(r2.to_set() =~= r0.to_set().remove(x));
                assert(r0[i as int] == x);
            }
            return true;
        }
        i = i + 1;
    }
    assert(!r0.contains(x)) by {
        if r0.contains(x) {
            let k = choose|k: int| 0 <= k < r0.len() && r0[k] == x;
            assert(r0[k] != x);
        }
    }
    assert(r0.to_set().remove(x) =~= r0.to_set());
    false
}

impl CircuitCiApp {
    /// The selection is well formed: the set is in order without repeats.
    pub open spec fn selection_wf(self) -> bool {
        sel_sorted(sel_views(self.selected_sketch_items@))
    }

    /// Whether `selection` is selected, in the set or as the single item.
    pub fn selection_is_selected(&self, selection: &SketchSelection) -> (r: bool)
        ensures
            r == (sel_views(self.selected_sketch_items@).contains(sel_view(*selection))
                || opt_sel_view(self.selected_sketch_item) == Some(sel_view(*selection))),
    {
        if set_contains(&self.selected_sketch_items, selection) {
            return true;
        }
        match &self.selected_sketch_item {
            Some(s) => same_selection(s, selection),
            None => false,
        }
    }

    /// Whether the sketch node drawn for `selection` belongs to a group action: it is in the
    /// selection set and is not an overflow marker.
    pub open spec fn node_in_group(self, selection: SketchSelection) -> bool {
        &&& sel_views(self.selected_sketch_items@).contains(sel_view(selection))
        &&& !(selection is Overflow)
    }

    /// The positions, in drawing order, of the sketch nodes that a group action moves: those
    /// whose selection is in the set, overflow markers left out. `node_selections` holds the
    /// selection of each drawn node.
    pub fn selected_nodes(&self, node_selections: &Vec<SketchSelection>) -> (r: Vec<usize>)
        ensures
            forall|i: int, j: int| 0 <= i < j < r@.len() ==> r@[i] < r@[j],
            forall|i: int| 0 <= i < r@.len() ==> (#[trigger] r@[i]) < node_selections@.len(),
            forall|i: int| 0 <= i < r@.len() ==> self.node_in_group(node_selections@[#[trigger] r@[i] as int]),
            forall|k: int| 0 <= k < node_selections@.len() && self.node_in_group(#[trigger] node_selections@[k])
                ==> r@.contains(k as usize),
    {
        let mut r: Vec<usize> = Vec::new();
        let mut k: usize = 0;
        while k < node_selections.len()
            invariant
                k <= node_selections@.len(),
                forall|i: int, j: int| 0 <= i < j < r@.len() ==> r@[i] < r@[j],
                forall|i: int| 0 <= i < r@.len() ==> (#[trigger] r@[i]) < k,
                forall|i: int| 0 <= i < r@.len() ==> self.node_in_group(node_selections@[#[trigger] r@[i] as int]),
                forall|m: int| 0 <= m < k && self.node_in_group(#[trigger] node_selections@[m])
                    ==> r@.contains(m as usize),
            decreases node_selections@.len() - k,
        {
            let s = &node_selections[k];
            let overflow = match s {
                SketchSelection::Overflow(_) => true,
                _ => false,
            };
            if !overflow && set_contains(&self.selected_sketch_items, s) {
                let ghost r0 = r@;
                r.push(k);
                assert forall|m: int| 0 <= m < k + 1 && self.node_in_group(#[trigger] node_selections@[m])
                    implies r@.contains(m as usize) by {
                    if m == k {
                        assert(r@[r0.len() as int] == k);
                    } else {
                        assert(r0.contains(m as usize));
                        let t = choose|t: int| 0 <= t < r0.len() && r0[t] == m as usize;
                        assert(r@[t] == m as usize);
                    }
                }
            }
            k = k + 1;
        }
        r
    }

    /// Selects one item (or nothing) and empties the set.
    pub fn set_single_sketch_selection(&mut self, selection: Option<SketchSelection>)
        ensures
            final(self).selected_sketch_item == selection,
            final(self).selected_sketch_items@.len() == 0,
            final(self).selection_wf(),
            *final(self) == (CircuitCiApp {
                selected_sketch_item: selection,
                selected_sketch_items: final(self).selected_sketch_items,
                ..*old(self)
            }),
    {
        self.selected_sketch_item = selection;
        self.selected_sketch_items = Vec::new();
        assert(sel_views(self.selected_sketch_items@) =~= Seq::<(int, Seq<char>)>::empty());
    }

    /// The first item of the set, in order.
    fn first_selected(&self) -> (r: Option<SketchSelection>)
        ensures
            opt_sel_view(r) == (if self.selected_sketch_items@.len() > 0 {
                Some(sel_views(self.selected_sketch_items@)[0])
            } else {
                None
            }),
    {
        if self.selected_sketch_items.len() > 0 {
            Some(copy_selection(&self.selected_sketch_items[0]))
        } else {
            None
        }
    }

    /// Adds an item to the set, or takes it out when it is there; the single item becomes
    /// the first of the set. Overflow markers cannot be selected this way.
    pub fn toggle_sketch_selection(&mut self, selection: SketchSelection)
        requires
            old(self).selection_wf(),
        ensures
            final(self).selection_wf(),
            selection is Overflow ==> *final(self) == *old(self),
            !(selection is Overflow) ==> {
                &&& sel_views(final(self).selected_sketch_items@).to_set() == toggled(
                    sel_views(old(self).selected_sketch_items@).to_set(),
                    sel_view(selection),
                )
                &&& opt_sel_view(final(self).selected_sketch_item) == (if final(self).selected_sketch_items@.len() > 0 {
                    Some(sel_views(final(self).selected_sketch_items@)[0])
                } else {
                    None
                })
                &&& final(self).project_yaml == old(self).project_yaml
                &&& final(self).status == old(self).status
            },
    {
        if let SketchSelection::Overflow(_) = selection {
            return;
        }
        if !set_remove(&mut self.selected_sketch_items, &selection) {
            set_insert(&mut self.selected_sketch_items, selection);
        }
        self.selected_sketch_item = self.first_selected();
    }

    /// Whether something that can be deleted is selected.
    pub fn has_deletable_sketch_selection(&self) -> (r: bool)
        ensures
            r == ((self.selected_sketch_item matches Some(s) && !(s is Overflow)) || exists|i: int|
                0 <= i < self.selected_sketch_items@.len() && !(
                #[trigger] self.selected_sketch_items@[i] is Overflow)),
    {
        match &self.selected_sketch_item {
            Some(SketchSelection::Overflow(_)) | None => {},
            Some(_) => {
                return true;
            },
        }
        let mut i: usize = 0;
        while i < self.selected_sketch_items.len()
            invariant
                i <= self.selected_sketch_items@.len(),
                forall|k: int| 0 <= k < i ==> #[trigger] self.selected_sketch_items@[k] is Overflow,
            decreases self.selected_sketch_items@.len() - i,
        {
            if let SketchSelection::Overflow(_) = &self.selected_sketch_items[i] {
            } else {
                return true;
            }
            i = i + 1;
        }
        false
    }
}

// ---------------------------------------------------------------------------------------
// Deleting and bundles
// ---------------------------------------------------------------------------------------

/// Removing one selected item from project text: a component, or a net.
pub open spec fn remove_step(t: Seq<char>, s: (int, Seq<char>)) -> Result<Seq<char>, EditErr> {
    if s.0 == 0 {
        text_edit(t, false, |d: Yaml| remove_component_spec(d, s.1))
    } else {
        text_edit(t, true, |d: Yaml| remove_net_spec(d, s.1))
    }
}

/// Removing the selected items of one kind, in order, with how many were removed; the
/// first failure stops the pass.
pub open spec fn delete_pass(t: Seq<char>, sels: Seq<(int, Seq<char>)>, kind: int) -> Result<
    (Seq<char>, nat),
    EditErr,
>
    decreases sels.len(),
{
    if sels.len() == 0 {
        Ok((t, 0))
    } else {
        match delete_pass(t, sels.drop_last(), kind) {
            Err(e) => Err(e),
            Ok((t2, n)) => if sels.last().0 == kind {
                match remove_step(t2, sels.last()) {
                    Err(e) => Err(e),
                    Ok(t3) => Ok((t3, n + 1)),
                }
            } else {
                Ok((t2, n))
            },
        }
    }
}

/// Removing the selected components, then the selected nets.
pub open spec fn delete_selected(t: Seq<char>, sels: Seq<(int, Seq<char>)>) -> Result<(Seq<char>, nat), EditErr> {
    match delete_pass(t, sels, 0) {
        Err(e) => Err(e),
        Ok((t2, n)) => match delete_pass(t2, sels, 1) {
            Err(e) => Err(e),
            Ok((t3, m)) => Ok((t3, n + m)),
        },
    }
}

fn run_delete_pass(text: String, items: &Vec<SketchSelection>, kind: u8) -> (r: Result<(String, usize), EditError>)
    requires
        kind <= 1,
    ensures
        match r {
            Ok((t, n)) => delete_pass(text@, sel_views(items@), kind as int) == Ok::<(Seq<char>, nat), EditErr>(
                (t@, n as nat),
            ) && n <= items@.len(),
            Err(e) => delete_pass(text@, sel_views(items@), kind as int) == Err::<(Seq<char>, nat), EditErr>(
                e@,
            ),
        },
{
    let ghost sv = sel_views(items@);
    let ghost t0 = text@;
    let mut updated = text;
    let mut removed: usize = 0;
    let mut i: usize = 0;
    while i < items.len()
        invariant
            sv == sel_views(items@),
            t0 == text@,
            kind <= 1,
            i <= items@.len(),
            removed <= i,
            delete_pass(t0, sv.subrange(0, i as int), kind as int) == Ok::<(Seq<char>, nat), EditErr>(
                (updated@, removed as nat),
            ),
        decreases items@.len() - i,
    {
        assert(sv.subrange(0, i + 1).drop_last() =~= sv.subrange(0, i as int));
        assert(sv.subrange(0, i + 1).last() == sel_view(items@[i as int]));
        let s = &items[i];
        if rank(s) == kind {
            let next = match s {
                SketchSelection::Component(id) => remove_component(updated.as_str(), id.as_str()),
                SketchSelection::Net(id) => remove_net(updated.as_str(), id.as_str()),
                SketchSelection::Overflow(id) => {
                    assert(false);
                    remove_net(updated.as_str(), id.as_str())
                },
            };
            match next {
                Ok(t) => {
                    updated = t;
                    removed = removed + 1;
                },
                Err(e) => {
                    assert(remove_step(updated@, sv[i as int]) == Err::<Seq<char>, EditErr>(e@));
                    assert(delete_pass(t0, sv.subrange(0, i + 1), kind as int) == Err::<
                        (Seq<char>, nat),
                        EditErr,
                    >(e@));
                    proof {
                        lemma_delete_pass_err(t0, sv, kind as int, i + 1);
                    }
                    return Err(e);
                },
            }
        }
        i = i + 1;
    }
    assert(sv.subrange(0, items@.len() as int) =~= sv);
    Ok((updated, removed))
}

/// A failure on a prefix of the selection fails the whole pass.
proof fn lemma_delete_pass_err(t: Seq<char>, sels: Seq<(int, Seq<char>)>, kind: int, i: int)
    requires
        0 <= i <= sels.len(),
        delete_pass(t, sels.subrange(0, i), kind) is Err,
    ensures
        delete_pass(t, sels, kind) == delete_pass(t, sels.subrange(0, i), kind),
    decreases sels.len() - i,
{
    if i < sels.len() {
        assert(sels.subrange(0, i + 1).drop_last() =~= sels.subrange(0, i));
        lemma_delete_pass_err(t, sels, kind, i + 1);
    } else {
        assert(sels.subrange(0, i) =~= sels);
    }
}

impl CircuitCiApp {
    /// Removes every selected component, then every selected net, from the project; on
    /// success the selection is cleared and the count reported, on failure nothing changes
    /// but the error kept.
    pub fn apply_delete_selected_sketch_items(&mut self)
        ensures
            match delete_selected(old(self).project_yaml@, sel_views(old(self).selected_sketch_items@)) {
                Err(e) => final(self).last_error matches Some(x) && x@ == e && *final(self) == (
                CircuitCiApp { last_error: final(self).last_error, ..*old(self) }),
                Ok((t, n)) => {
                    &&& final(self).project_yaml@ == t
                    &&& final(self).project_yaml_dirty
                    &&& final(self).status@ == decimal(n) + " sketch item(s) removed."@
                    &&& final(self).selected_sketch_item is None
                    &&& final(self).selected_sketch_items@.len() == 0
                    &&& final(self).pending_scope_probe == old(self).pending_scope_probe
                },
            },
    {
        let text = str_to_string(self.project_yaml.as_str());
        let (t1, n1) = match run_delete_pass(text, &self.selected_sketch_items, 0) {
            Ok(x) => x,
            Err(e) => {
                self.record_error(e);
                return;
            },
        };
        let (t2, n2) = match run_delete_pass(t1, &self.selected_sketch_items, 1) {
            Ok(x) => x,
            Err(e) => {
                self.record_error(e);
                return;
            },
        };
        assert(n1 + n2 <= 2 * self.selected_sketch_items@.len());
        let total: u128 = n1 as u128 + n2 as u128;
        let mut status = decimal_string(total);
        status.append(" sketch item(s) removed.");
        self.selected_sketch_item = None;
        self.selected_sketch_items = Vec::new();
        self.apply_edited_project_yaml(t2, status.as_str());
    }

    /// Removes a component from the project, reporting it.
    pub fn apply_remove_component(&mut self, component_id: &str)
        ensures
            match text_edit(old(self).project_yaml@, false, |d: Yaml| remove_component_spec(d, component_id@)) {
                Err(e) => final(self).last_error matches Some(x) && x@ == e && *final(self) == (
                CircuitCiApp { last_error: final(self).last_error, ..*old(self) }),
                Ok(t) => final(self).project_yaml@ == t && final(self).project_yaml_dirty && final(self).status@ == "Component "@ + component_id@ + " removed."@,
            },
    {
        match remove_component(self.project_yaml.as_str(), component_id) {
            Ok(next) => {
                let mut status = str_to_string("Component ");
                status.append(component_id);
                status.append(" removed.");
                self.apply_edited_project_yaml(next, status.as_str());
            },
            Err(e) => self.record_error(e),
        }
    }

    /// Removes an unused net from the project, reporting it.
    pub fn apply_remove_net(&mut self, net_id: &str)
        ensures
            match text_edit(old(self).project_yaml@, true, |d: Yaml| remove_net_spec(d, net_id@)) {
                Err(e) => final(self).last_error matches Some(x) && x@ == e && *final(self) == (
                CircuitCiApp { last_error: final(self).last_error, ..*old(self) }),
                Ok(t) => final(self).project_yaml@ == t && final(self).project_yaml_dirty && final(self).status@ == "Net "@ + net_id@ + " removed."@,
            },
    {
        match remove_net(self.project_yaml.as_str(), net_id) {
            Ok(next) => {
                let mut status = str_to_string("Net ");
                status.append(net_id);
                status.append(" removed.");
                self.apply_edited_project_yaml(next, status.as_str());
            },
            Err(e) => self.record_error(e),
        }
    }

    /// Deletes what is selected: the selection set when it is not empty, else the single
    /// selected component or net; reports when nothing deletable is selected.
    pub fn apply_delete_selected_sketch_item(&mut self)
        ensures
            old(self).selected_sketch_items@.len() == 0 ==> match old(self).selected_sketch_item {
                Some(SketchSelection::Component(id)) => match text_edit(
                    old(self).project_yaml@,
                    false,
                    |d: Yaml| remove_component_spec(d, id@),
                ) {
                    Ok(t) => final(self).project_yaml@ == t && final(self).project_yaml_dirty
                        && final(self).status@ == "Component "@ + id@ + " removed."@,
                    Err(e) => final(self).last_error matches Some(x) && x@ == e && *final(self) == (
                    CircuitCiApp { last_error: final(self).last_error, ..*old(self) }),
                },
                Some(SketchSelection::Net(id)) => match text_edit(
                    old(self).project_yaml@,
                    true,
                    |d: Yaml| remove_net_spec(d, id@),
                ) {
                    Ok(t) => final(self).project_yaml@ == t && final(self).project_yaml_dirty
                        && final(self).status@ == "Net "@ + id@ + " removed."@,
                    Err(e) => final(self).last_error matches Some(x) && x@ == e && *final(self) == (
                    CircuitCiApp { last_error: final(self).last_error, ..*old(self) }),
                },
                _ => final(self).status@ == "No deletable sketch item selected."@ && *final(self) == (
                CircuitCiApp { status: final(self).status, ..*old(self) }),
            },
            old(self).selected_sketch_items@.len() > 0 ==> match delete_selected(
                old(self).project_yaml@,
                sel_views(old(self).selected_sketch_items@),
            ) {
                Err(e) => final(self).last_error matches Some(x) && x@ == e && *final(self) == (
                CircuitCiApp { last_error: final(self).last_error, ..*old(self) }),
                Ok((t, n)) => {
                    &&& final(self).project_yaml@ == t
                    &&& final(self).project_yaml_dirty
                    &&& final(self).status@ == decimal(n) + " sketch item(s) removed."@
                    &&& final(self).selected_sketch_item is None
                    &&& final(self).selected_sketch_items@.len() == 0
                },
            },
    {
        if self.selected_sketch_items.len() > 0 {
            self.apply_delete_selected_sketch_items();
            return;
        }
        let target = match &self.selected_sketch_item {
            Some(s) => Some(copy_selection(s)),
            None => None,
        };
        match target {
            Some(SketchSelection::Component(id)) => self.apply_remove_component(id.as_str()),
            Some(SketchSelection::Net(id)) => self.apply_remove_net(id.as_str()),
            _ => {
                self.status = str_to_string("No deletable sketch item selected.");
            },
        }
    }

    /// Selects every member net of a bundle and reports it.
    pub fn select_net_bundle(&mut self, bundle: &SketchNetBundle)
        requires
            bundle.members@.len() <= u64::MAX,
        ensures
            final(self).selection_wf(),
            sel_views(final(self).selected_sketch_items@).to_set() == Set::new(
                |x: (int, Seq<char>)| x.0 == 1 && names(bundle.members@).contains(x.1),
            ),
            opt_sel_view(final(self).selected_sketch_item) == (if final(self).selected_sketch_items@.len() > 0 {
                Some(sel_views(final(self).selected_sketch_items@)[0])
            } else {
                None
            }),
            final(self).status@ == "Selected net bundle "@ + bundle.label@ + " ("@ + decimal(
                bundle.members@.len() as nat,
            ) + " nets)."@,
            final(self).project_yaml == old(self).project_yaml,
    {
        let ghost mv = names(bundle.members@);
        let mut items: Vec<SketchSelection> = Vec::new();
        let mut i: usize = 0;
        assert(sel_views(items@).to_set() =~= Set::new(
            |x: (int, Seq<char>)| x.0 == 1 && mv.subrange(0, 0).contains(x.1),
        ));
        while i < bundle.members.len()
            invariant
                mv == names(bundle.members@),
                i <= bundle.members@.len(),
                sel_sorted(sel_views(items@)),
                sel_views(items@).to_set() == Set::new(
                    |x: (int, Seq<char>)| x.0 == 1 && mv.subrange(0, i as int).contains(x.1),
                ),
            decreases bundle.members@.len() - i,
        {
            let s = SketchSelection::Net(str_to_string(bundle.members[i].as_str()));
            let ghost x = sel_view(s);
            assert(x == (1int, mv[i as int]));
            let ghost before = sel_views(items@).to_set();
            if !set_contains(&items, &s) {
                set_insert(&mut items, s);
            } else {
                assert(before.contains(x));
                assert(before.insert(x) =~= before);
            }
            assert(sel_views(items@).to_set() =~= Set::new(
                |y: (int, Seq<char>)| y.0 == 1 && mv.subrange(0, i + 1).contains(y.1),
            )) by {
                assert forall|y: (int, Seq<char>)|
                    y.0 == 1 && mv.subrange(0, i + 1).contains(y.1) implies before.insert(x).contains(y) by {
                    let k = choose|k: int| 0 <= k < i + 1 && #[trigger] mv.subrange(0, i + 1)[k] == y.1;
                    if k < i {
                        assert(mv.subrange(0, i as int)[k] == y.1);
                    }
                }
                assert forall|y: (int, Seq<char>)| before.insert(x).contains(y) implies y.0 == 1
                    && mv.subrange(0, i + 1).contains(y.1) by {
                    if y == x {
                        assert(mv.subrange(0, i + 1)[i as int] == y.1);
                    } else {
                        let k = choose|k: int| 0 <= k < i && #[trigger] mv.subrange(0, i as int)[k] == y.1;
                        assert(mv.subrange(0, i + 1)[k] == y.1);
                    }
                }
            }
            i = i + 1;
        }
        assert(mv.subrange(0, bundle.members@.len() as int) =~= mv);
        self.selected_sketch_items = items;
        self.selected_sketch_item = self.first_selected();
        let mut status = str_to_string("Selected net bundle ");
        status.append(bundle.label.as_str());
        status.append(" (");
        status.append(decimal_string(bundle.members.len() as u128).as_str());
        status.append(" nets).");
        self.status = status;
    }
}

} // verus!
