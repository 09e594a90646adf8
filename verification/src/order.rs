//! The order of strings (by character code, as `str` compares them) and sorted sets of
//! strings kept in vectors.
use vstd::prelude::*;
use crate::doc::{Yaml, YamlEntry, YamlNode, entries_of, yaml_of};
use crate::naming::names;
use crate::text::{char_at, char_len};

verus! {

/// `a` comes before `b`: at the first position where they differ `a` has the smaller
/// character, or `a` is a proper prefix of `b`.
pub open spec fn seq_lt(a: Seq<char>, b: Seq<char>) -> bool
    decreases a.len(),
{
    if a.len() == 0 {
        b.len() > 0
    } else if b.len() == 0 {
        false
    } else if a[0] != b[0] {
        (a[0] as int) < (b[0] as int)
    } else {
        seq_lt(a.drop_first(), b.drop_first())
    }
}

pub proof fn lemma_lt_irreflexive(a: Seq<char>)
    ensures
        !seq_lt(a, a),
    decreases a.len(),
{
    if a.len() > 0 {
        lemma_lt_irreflexive(a.drop_first());
    }
}

pub proof fn lemma_lt_asymmetric(a: Seq<char>, b: Seq<char>)
    ensures
        !(seq_lt(a, b) && seq_lt(b, a)),
    decreases a.len(),
{
    if a.len() > 0 && b.len() > 0 && a[0] == b[0] {
        lemma_lt_asymmetric(a.drop_first(), b.drop_first());
    }
}

pub proof fn lemma_lt_transitive(a: Seq<char>, b: Seq<char>, c: Seq<char>)
    requires
        seq_lt(a, b),
        seq_lt(b, c),
    ensures
        seq_lt(a, c),
    decreases a.len(),
{
    if a.len() > 0 && b.len() > 0 && c.len() > 0 && a[0] == b[0] && b[0] == c[0] {
        lemma_lt_transitive(a.drop_first(), b.drop_first(), c.drop_first());
    }
}

pub proof fn lemma_lt_total(a: Seq<char>, b: Seq<char>)
    requires
        a != b,
    ensures
        seq_lt(a, b) || seq_lt(b, a),
    decreases a.len(),
{
    if a.len() > 0 && b.len() > 0 && a[0] == b[0] {
        if a.drop_first() == b.drop_first() {
            assert(a =~= seq![a[0]] + a.drop_first());
            assert(b =~= seq![b[0]] + b.drop_first());
        }
        lemma_lt_total(a.drop_first(), b.drop_first());
    } else if a.len() > 0 && b.len() > 0 {
        assert((a[0] as int) != (b[0] as int));
    } else if a.len() == 0 && b.len() == 0 {
        assert(a =~= b);
    }
}

/// Whether `a` sorts before `b`.
pub fn str_lt(a: &str, b: &str) -> (r: bool)
    ensures
        r == seq_lt(a@, b@),
{
    let n = char_len(a);
    let m = char_len(b);
    let mut i: usize = 0;
    assert(a@.skip(0) =~= a@ && b@.skip(0) =~= b@);
    while i < n && i < m
        invariant
            n == a@.len(),
            m == b@.len(),
            i <= n,
            i <= m,
            seq_lt(a@, b@) == seq_lt(a@.skip(i as int), b@.skip(i as int)),
        decreases n - i,
    {
        let x = char_at(a, i);
        let y = char_at(b, i);
        if x != y {
            return (x as u32) < (y as u32);
        }
        assert(a@.skip(i as int).drop_first() =~= a@.skip(i + 1));
        assert(b@.skip(i as int).drop_first() =~= b@.skip(i + 1));
        i = i + 1;
    }
    i < m && i == n
}

/// A sequence of strings in strictly increasing order.
pub open spec fn strictly_sorted(s: Seq<Seq<char>>) -> bool {
    forall|i: int, j: int| 0 <= i < j < s.len() ==> seq_lt(#[trigger] s[i], #[trigger] s[j])
}

/// Two strictly sorted sequences with the same elements are the same sequence.
pub proof fn lemma_sorted_unique(a: Seq<Seq<char>>, b: Seq<Seq<char>>)
    requires
        strictly_sorted(a),
        strictly_sorted(b),
        a.to_set() == b.to_set(),
    ensures
        a == b,
    decreases a.len(),
{
    if a.len() == 0 {
        if b.len() > 0 {
            assert(b.to_set().contains(b[0]));
            assert(!a.to_set().contains(b[0]));
        }
        assert(a =~= b);
    } else if b.len() == 0 {
        assert(a.to_set().contains(a[0]));
    } else {
        // The smallest elements agree.
        assert(a.to_set().contains(a[0]));
        assert(b.to_set().contains(b[0]));
        assert(a[0] == b[0]) by {
            assert(b.to_set().contains(a[0]));
            let j = choose|j: int| 0 <= j < b.len() && b[j] == a[0];
            assert(a.to_set().contains(b[0]));
            let i = choose|i: int| 0 <= i < a.len() && a[i] == b[0];
            if a[0] != b[0] {
                assert(j > 0 && i > 0);
                assert(seq_lt(b[0], b[j]));
                assert(seq_lt(a[0], a[i]));
                lemma_lt_asymmetric(a[0], b[0]);
            }
        }
        let ta = a.drop_first();
        let tb = b.drop_first();
        assert(strictly_sorted(ta)) by {
            assert forall|i: int, j: int| 0 <= i < j < ta.len() implies seq_lt(
                #[trigger] ta[i],
                #[trigger] ta[j],
            ) by {
                assert(ta[i] == a[i + 1] && ta[j] == a[j + 1]);
            }
        }
        assert(strictly_sorted(tb)) by {
            assert forall|i: int, j: int| 0 <= i < j < tb.len() implies seq_lt(
                #[trigger] tb[i],
                #[trigger] tb[j],
            ) by {
                assert(tb[i] == b[i + 1] && tb[j] == b[j + 1]);
            }
        }
        assert(ta.to_set() =~= tb.to_set()) by {
            assert forall|x: Seq<char>| ta.to_set().contains(x) implies tb.to_set().contains(x) by {
                let i = choose|i: int| 0 <= i < ta.len() && ta[i] == x;
                assert(a[i + 1] == x);
                assert(seq_lt(a[0], x));
                lemma_lt_irreflexive(x);
                assert(a.to_set().contains(x));
                let j = choose|j: int| 0 <= j < b.len() && b[j] == x;
                assert(j != 0);
                assert(tb[j - 1] == x);
            }
            assert forall|x: Seq<char>| tb.to_set().contains(x) implies ta.to_set().contains(x) by {
                let j = choose|j: int| 0 <= j < tb.len() && tb[j] == x;
                assert(b[j + 1] == x);
                assert(seq_lt(b[0], x));
                lemma_lt_irreflexive(x);
                assert(b.to_set().contains(x));
                let i = choose|i: int| 0 <= i < a.len() && a[i] == x;
                assert(i != 0);
                assert(ta[i - 1] == x);
            }
        }
        lemma_sorted_unique(ta, tb);
        assert(a =~= seq![a[0]] + ta);
        assert(b =~= seq![b[0]] + tb);
    }
}

/// The strings of a finite set in increasing order.
pub open spec fn sorted_of(s: Set<Seq<char>>) -> Seq<Seq<char>> {
    choose|r: Seq<Seq<char>>| strictly_sorted(r) && r.to_set() == s
}

/// Adds `s` to a sorted vector of distinct strings, in its place; no change when present.
pub fn insert_sorted(v: &mut Vec<String>, s: String)
    requires
        strictly_sorted(names(old(v)@)),
    ensures
        strictly_sorted(names(final(v)@)),
        names(final(v)@).to_set() == names(old(v)@).to_set().insert(s@),
{
    let ghost r = names(v@);
    let mut k: usize = 0;
    while k < v.len() && str_lt(v[k].as_str(), s.as_str())
        invariant
            r == names(v@),
            strictly_sorted(r),
            k <= v@.len(),
            forall|i: int| 0 <= i < k ==> seq_lt(#[trigger] r[i], s@),
        decreases v@.len() - k,
    {
        k = k + 1;
    }
    proof {
        if k < v@.len() {
            assert forall|i: int| k <= i < r.len() implies !seq_lt(#[trigger] r[i], s@) by {
                if i > k {
                    assert(seq_lt(r[k as int], r[i]));
                    if seq_lt(r[i], s@) {
                        if r[k as int] == s@ {
                            lemma_lt_asymmetric(r[i], s@);
                        } else {
                            lemma_lt_total(r[k as int], s@);
                            lemma_lt_transitive(r[k as int], r[i], s@);
                        }
                    }
                }
            }
        }
    }
    if k < v.len() && crate::text::text_eq(v[k].as_str(), s.as_str()) {
        assert(r.to_set().insert(s@) =~= r.to_set()) by {
            assert(r[k as int] == s@);
        }
        return;
    }
    proof {
        if k < r.len() {
            lemma_lt_total(r[k as int], s@);
        }
    }
    v.insert(k, s);
    proof {
        let r2 = names(v@);
        assert(r2 =~= r.insert(k as int, s@));
        assert(strictly_sorted(r2)) by {
            assert forall|i: int, j: int| 0 <= i < j < r2.len() implies seq_lt(
                #[trigger] r2[i],
                #[trigger] r2[j],
            ) by {
                if j < k {
                    assert(r2[i] == r[i] && r2[j] == r[j]);
                } else if j == k {
                    assert(r2[i] == r[i]);
                } else if i == k {
                    assert(r2[j] == r[j - 1]);
                    if j - 1 > k {
                        assert(seq_lt(r[k as int], r[j - 1]));
                        lemma_lt_transitive(s@, r[k as int], r[j - 1]);
                    }
                } else if i < k {
                    assert(r2[i] == r[i] && r2[j] == r[j - 1]);
                } else {
                    assert(r2[i] == r[i - 1] && r2[j] == r[j - 1]);
                }
            }
        }
        assert(r2.to_set() =~= r.to_set().insert(s@)) by {
            assert forall|y: Seq<char>| r2.to_set().contains(y) implies r.to_set().insert(s@).contains(y) by {
                let i = choose|i: int| 0 <= i < r2.len() && r2[i] == y;
                if i < k {
                    assert(r[i] == y);
                } else if i > k {
                    assert(r[i - 1] == y);
                }
            }
            assert forall|y: Seq<char>| r.to_set().insert(s@).contains(y) implies r2.to_set().contains(y) by {
                if y == s@ {
                    assert(r2[k as int] == s@);
                } else {
                    let i = choose|i: int| 0 <= i < r.len() && r[i] == y;
                    if i < k {
                        assert(r2[i] == y);
                    } else {
                        assert(r2[i + 1] == y);
                    }
                }
            }
        }
    }
}

// ---------------------------------------------------------------------------------------
// Mapping entries in key order
// ---------------------------------------------------------------------------------------

/// The entries of a mapping whose keys are strings, as key and value, in order.
pub open spec fn keyed_entries(m: Seq<(Yaml, Yaml)>) -> Seq<(Seq<char>, Yaml)>
    decreases m.len(),
{
    if m.len() == 0 {
        Seq::empty()
    } else {
        let prev = keyed_entries(m.drop_last());
        match m.last().0 {
            Yaml::Text(k) => prev.push((k, m.last().1)),
            _ => prev,
        }
    }
}

/// `e` placed right after the last entry of `s` whose key does not come after its own.
pub open spec fn insert_by_key(s: Seq<(Seq<char>, Yaml)>, e: (Seq<char>, Yaml)) -> Seq<(Seq<char>, Yaml)>
    decreases s.len(),
{
    if s.len() > 0 && seq_lt(e.0, s.last().0) {
        insert_by_key(s.drop_last(), e).push(s.last())
    } else {
        s.push(e)
    }
}

/// The entries in key order; entries with the same key keep their order.
pub open spec fn by_key(s: Seq<(Seq<char>, Yaml)>) -> Seq<(Seq<char>, Yaml)>
    decreases s.len(),
{
    if s.len() == 0 {
        Seq::empty()
    } else {
        insert_by_key(by_key(s.drop_last()), s.last())
    }
}

/// A mapping's string-keyed entries in key order: the order in which a map keyed by
/// strings lists them.
pub open spec fn id_order(m: Seq<(Yaml, Yaml)>) -> Seq<(Seq<char>, Yaml)> {
    by_key(keyed_entries(m))
}

/// Inserting at the place found by walking back over the entries that come after `e`.
proof fn lemma_insert_by_key_at(s: Seq<(Seq<char>, Yaml)>, e: (Seq<char>, Yaml), j: int)
    requires
        0 <= j <= s.len(),
        j == 0 || !seq_lt(e.0, s[j - 1].0),
        forall|t: int| j <= t < s.len() ==> seq_lt(e.0, #[trigger] s[t].0),
    ensures
        insert_by_key(s, e) == s.insert(j, e),
    decreases s.len(),
{
    if j < s.len() {
        let p = s.drop_last();
        assert(seq_lt(e.0, s[s.len() - 1].0));
        assert forall|t: int| j <= t < p.len() implies seq_lt(e.0, #[trigger] p[t].0) by {
            assert(p[t] == s[t]);
        }
        if j > 0 {
            assert(p[j - 1] == s[j - 1]);
        }
        lemma_insert_by_key_at(p, e, j);
        assert(p.insert(j, e).push(s.last()) =~= s.insert(j, e));
    } else {
        assert(s.push(e) =~= s.insert(j, e));
    }
}

/// The key of an entry known to have a string key.
pub open spec fn key_text(n: YamlNode) -> Seq<char> {
    match n {
        YamlNode::Text(s) => s@,
        _ => Seq::empty(),
    }
}

/// The entries at the given positions, as key and value.
pub open spec fn entries_at(m: Seq<YamlEntry>, pos: Seq<usize>) -> Seq<(Seq<char>, Yaml)> {
    pos.map_values(|i: usize| (key_text(m[i as int].key), yaml_of(m[i as int].value)))
}

/// The positions of a mapping's string-keyed entries, in key order.
pub fn id_order_positions(m: &Vec<YamlEntry>) -> (r: Vec<usize>)
    ensures
        forall|k: int| 0 <= k < r@.len() ==> #[trigger] r@[k] < m@.len() && m@[r@[k] as int].key is Text,
        entries_at(m@, r@) == id_order(entries_of(m@)),
{
    let ghost e = entries_of(m@);
    let mut r: Vec<usize> = Vec::new();
    let mut i: usize = 0;
    while i < m.len()
        invariant
            e == entries_of(m@),
            i <= m@.len(),
            forall|k: int| 0 <= k < r@.len() ==> #[trigger] r@[k] < m@.len() && m@[r@[k] as int].key is Text,
            entries_at(m@, r@) == by_key(keyed_entries(e.subrange(0, i as int))),
        decreases m@.len() - i,
    {
        assert(e.subrange(0, i + 1).drop_last() =~= e.subrange(0, i as int));
        assert(e.subrange(0, i + 1).last() == e[i as int]);
        match &m[i].key {
            YamlNode::Text(k) => {
                let ghost s = entries_at(m@, r@);
                let ghost en = (k@, yaml_of(m@[i as int].value));
                let mut j: usize = r.len();
                while j > 0 && str_lt(k.as_str(), key_str(&m[r[j - 1]].key))
                    invariant
                        j <= r@.len(),
                        s == entries_at(m@, r@),
                        forall|q: int| 0 <= q < r@.len() ==> #[trigger] r@[q] < m@.len() && m@[r@[q] as int].key is Text,
                        forall|t: int| j <= t < s.len() ==> seq_lt(k@, #[trigger] s[t].0),
                    decreases j,
                {
                    j = j - 1;
                }
                proof {
                    lemma_insert_by_key_at(s, en, j as int);
                }
                r.insert(j, i);
                assert(entries_at(m@, r@) =~= s.insert(j as int, en));
                let ghost x = keyed_entries(e.subrange(0, i as int));
                assert(e[i as int].0 == Yaml::Text(k@));
                assert(e[i as int].1 == en.1);
                assert(keyed_entries(e.subrange(0, i + 1)) == x.push(en));
                assert(x.push(en).drop_last() =~= x);
                assert(by_key(x.push(en)) == insert_by_key(by_key(x), en));
            },
            _ => {
                assert(keyed_entries(e.subrange(0, i + 1)) == keyed_entries(e.subrange(0, i as int)));
            },
        }
        i = i + 1;
    }
    assert(e.subrange(0, m@.len() as int) =~= e);
    r
}

/// The text of a string key.
fn key_str(n: &YamlNode) -> (r: &str)
    requires
        n is Text,
    ensures
        r@ == key_text(*n),
{
    match n {
        YamlNode::Text(s) => s.as_str(),
        _ => "",
    }
}

/// A mapping's string keys in key order.
pub open spec fn id_keys(m: Seq<(Yaml, Yaml)>) -> Seq<Seq<char>> {
    id_order(m).map_values(|e: (Seq<char>, Yaml)| e.0)
}

/// The string keys of a mapping, in key order.
pub fn map_keys_by_id(m: &Vec<YamlEntry>) -> (r: Vec<String>)
    ensures
        names(r@) == id_keys(entries_of(m@)),
{
    let order = id_order_positions(m);
    let ghost ks = id_keys(entries_of(m@));
    let mut r: Vec<String> = Vec::new();
    let mut i: usize = 0;
    while i < order.len()
        invariant
            entries_at(m@, order@) == id_order(entries_of(m@)),
            ks == id_keys(entries_of(m@)),
            ks.len() == order@.len(),
            forall|k: int| 0 <= k < order@.len() ==> #[trigger] order@[k] < m@.len() && m@[order@[k] as int].key is Text,
            i <= order@.len(),
            names(r@) == ks.subrange(0, i as int),
        decreases order@.len() - i,
    {
        let idx = order[i];
        assert(order@[i as int] < m@.len());
        let k = key_str(&m[idx].key);
        assert(ks[i as int] == k@);
        let ghost before = r@;
        r.push(crate::text::str_to_string(k));
        assert(names(r@) =~= names(before).push(k@));
        assert(names(r@) =~= ks.subrange(0, i + 1));
        i = i + 1;
    }
    assert(ks.subrange(0, order@.len() as int) =~= ks);
    r
}

} // verus!
