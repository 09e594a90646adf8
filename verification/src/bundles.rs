//! Derived net bundles: nets whose names say they belong together (a bracketed bus, a
//! protocol pair, a dotted namespace) are grouped under one label for navigation.
use vstd::prelude::*;
use crate::naming::names;
use crate::order::{
    insert_sorted, lemma_lt_irreflexive, lemma_lt_transitive, seq_lt, str_lt, strictly_sorted,
};
use crate::text::{
    all_ws, ascii_lower, ascii_lower_str, char_at, char_len, contains_seq, ends_with, is_ascii_digit,
    is_ascii_digit_char, str_contains, str_ends_with, str_to_string, sub_str, text_eq, trim,
    trim_str,
};

verus! {

/// The characters that separate a group name from a member name.
pub open spec fn is_group_sep(c: char) -> bool {
    c == '_' || c == '-' || c == '.' || c == ':' || c == '/'
}

pub open spec fn drop_seps_start(s: Seq<char>) -> Seq<char>
    decreases s.len(),
{
    if s.len() > 0 && is_group_sep(s[0]) {
        drop_seps_start(s.drop_first())
    } else {
        s
    }
}

pub open spec fn drop_seps_end(s: Seq<char>) -> Seq<char>
    decreases s.len(),
{
    if s.len() > 0 && is_group_sep(s.last()) {
        drop_seps_end(s.drop_last())
    } else {
        s
    }
}

/// `s` without group separators at either end.
pub open spec fn trim_seps(s: Seq<char>) -> Seq<char> {
    drop_seps_end(drop_seps_start(s))
}

proof fn lemma_drop_start(s: Seq<char>, i: int)
    requires
        0 <= i <= s.len(),
        forall|k: int| 0 <= k < i ==> is_group_sep(#[trigger] s[k]),
        i == s.len() || !is_group_sep(s[i]),
    ensures
        drop_seps_start(s) == s.subrange(i, s.len() as int),
    decreases i,
{
    if i > 0 {
        let t = s.drop_first();
        assert forall|k: int| 0 <= k < i - 1 implies is_group_sep(#[trigger] t[k]) by {
            assert(t[k] == s[k + 1]);
        }
        if i < s.len() {
            assert(t[i - 1] == s[i]);
        }
        lemma_drop_start(t, i - 1);
        assert(t.subrange(i - 1, t.len() as int) =~= s.subrange(i, s.len() as int));
    } else {
        assert(s.subrange(0, s.len() as int) =~= s);
    }
}

proof fn lemma_drop_end(s: Seq<char>, j: int)
    requires
        0 <= j <= s.len(),
        forall|k: int| j <= k < s.len() ==> is_group_sep(#[trigger] s[k]),
        j == 0 || !is_group_sep(s[j - 1]),
    ensures
        drop_seps_end(s) == s.subrange(0, j),
    decreases s.len() - j,
{
    if j < s.len() {
        let t = s.drop_last();
        assert forall|k: int| j <= k < t.len() implies is_group_sep(#[trigger] t[k]) by {
            assert(t[k] == s[k]);
        }
        if j > 0 {
            assert(t[j - 1] == s[j - 1]);
        }
        lemma_drop_end(t, j);
        assert(t.subrange(0, j) =~= s.subrange(0, j));
    } else {
        assert(s.subrange(0, s.len() as int) =~= s);
    }
}

fn is_group_sep_char(c: char) -> (r: bool)
    ensures
        r == is_group_sep(c),
{
    c == '_' || c == '-' || c == '.' || c == ':' || c == '/'
}

/// `value` with `_`, `-`, `.`, `:` and `/` removed at both ends.
pub fn trim_group_separator(value: &str) -> (r: String)
    ensures
        r@ == trim_seps(value@),
{
    let n = char_len(value);
    let mut i: usize = 0;
    while i < n && is_group_sep_char(char_at(value, i))
        invariant
            n == value@.len(),
            i <= n,
            forall|k: int| 0 <= k < i ==> is_group_sep(#[trigger] value@[k]),
        decreases n - i,
    {
        i = i + 1;
    }
    proof {
        lemma_drop_start(value@, i as int);
    }
    let ghost a = value@.subrange(i as int, n as int);
    let mut j: usize = n;
    while j > i && is_group_sep_char(char_at(value, j - 1))
        invariant
            n == value@.len(),
            i <= j <= n,
            forall|k: int| j <= k < n ==> is_group_sep(#[trigger] value@[k]),
        decreases j,
    {
        j = j - 1;
    }
    proof {
        let q = (j - i) as int;
        assert forall|k: int| q <= k < a.len() implies is_group_sep(#[trigger] a[k]) by {
            assert(a[k] == value@[i + k]);
        }
        if q > 0 {
            assert(a[q - 1] == value@[j - 1]);
        }
        lemma_drop_end(a, q);
        assert(a.subrange(0, q) =~= value@.subrange(i as int, j as int));
    }
    sub_str(value, i, j)
}

// ---------------------------------------------------------------------------------------
// Labels
// ---------------------------------------------------------------------------------------

/// `k` is the last position of `c` in `s`.
pub open spec fn is_last_pos(s: Seq<char>, c: char, k: int) -> bool {
    &&& 0 <= k < s.len()
    &&& s[k] == c
    &&& forall|j: int| k < j < s.len() ==> #[trigger] s[j] != c
}

/// The last position of `c` in `s`, when there is one.
pub open spec fn last_pos(s: Seq<char>, c: char) -> Option<int> {
    if exists|k: int| is_last_pos(s, c, k) {
        Some(choose|k: int| is_last_pos(s, c, k))
    } else {
        None
    }
}

fn find_last(s: &str, c: char) -> (r: Option<usize>)
    ensures
        match r {
            Some(k) => last_pos(s@, c) == Some(k as int),
            None => last_pos(s@, c) is None,
        },
{
    let n = char_len(s);
    let mut k: usize = n;
    while k > 0
        invariant
            n == s@.len(),
            k <= n,
            forall|j: int| k <= j < n ==> #[trigger] s@[j] != c,
        decreases k,
    {
        if char_at(s, k - 1) == c {
            let ghost p = (k - 1) as int;
            assert(is_last_pos(s@, c, p));
            assert((choose|q: int| is_last_pos(s@, c, q)) == p) by {
                let q = choose|q: int| is_last_pos(s@, c, q);
                if q < p {
                    assert(s@[p] != c);
                } else if q > p {
                    assert(s@[q] != c);
                }
            }
            return Some(k - 1);
        }
        k = k - 1;
    }
    assert(!exists|q: int| is_last_pos(s@, c, q)) by {
        if exists|q: int| is_last_pos(s@, c, q) {
            let q = choose|q: int| is_last_pos(s@, c, q);
            assert(s@[q] != c);
        }
    }
    None
}

/// `name[N]` with a non-blank name and decimal index `N` belongs to the bus `name[]`.
pub open spec fn bracket_bus_spec(id: Seq<char>) -> Option<Seq<char>> {
    match last_pos(id, '[') {
        None => None,
        Some(k) => if !(id.len() > 0 && id.last() == ']') {
            None
        } else {
            let index = id.subrange(k + 1, id.len() - 1);
            if index.len() == 0 || !(forall|j: int| 0 <= j < index.len() ==> is_ascii_digit(#[trigger] index[j])) {
                None
            } else if trim(id.subrange(0, k)).len() == 0 {
                None
            } else {
                Some(trim(id.subrange(0, k)) + "[]"@)
            }
        },
    }
}

/// The bus label of a bracketed net name.
pub fn bracket_bus_label(net_id: &str) -> (r: Option<String>)
    ensures
        match r {
            Some(s) => bracket_bus_spec(net_id@) == Some(s@),
            None => bracket_bus_spec(net_id@) is None,
        },
{
    let open = match find_last(net_id, '[') {
        Some(k) => k,
        None => return None,
    };
    let n = char_len(net_id);
    if !(n > 0 && char_at(net_id, n - 1) == ']') {
        return None;
    }
    if open + 1 > n - 1 {
        assert(net_id@[open as int] == '[');
        assert(false);
        return None;
    }
    let index = sub_str(net_id, open + 1, n - 1);
    let m = char_len(index.as_str());
    if m == 0 {
        return None;
    }
    let mut j: usize = 0;
    while j < m
        invariant
            m == index@.len(),
            j <= m,
            n == net_id@.len(),
            n > 0,
            open + 1 <= n - 1,
            net_id@.last() == ']',
            last_pos(net_id@, '[') == Some(open as int),
            index@ == net_id@.subrange(open + 1, n - 1),
            forall|q: int| 0 <= q < j ==> is_ascii_digit(#[trigger] index@[q]),
        decreases m - j,
    {
        if !is_ascii_digit_char(char_at(index.as_str(), j)) {
            assert(!is_ascii_digit(index@[j as int]));
            return None;
        }
        j = j + 1;
    }
    let before = sub_str(net_id, 0, open);
    let prefix = trim_str(before.as_str());
    if char_len(prefix.as_str()) == 0 {
        return None;
    }
    let mut label = prefix;
    label.append("[]");
    Some(label)
}

/// `prefix.member`, split at the last `.`, with neither part blank, belongs to `prefix`.
pub open spec fn dot_namespace_spec(id: Seq<char>) -> Option<Seq<char>> {
    match last_pos(id, '.') {
        None => None,
        Some(k) => if trim(id.subrange(0, k)).len() > 0 && trim(id.subrange(k + 1, id.len() as int)).len() > 0 {
            Some(id.subrange(0, k))
        } else {
            None
        },
    }
}

/// The namespace of a dotted net name.
pub fn dot_namespace_label(net_id: &str) -> (r: Option<String>)
    ensures
        match r {
            Some(s) => dot_namespace_spec(net_id@) == Some(s@),
            None => dot_namespace_spec(net_id@) is None,
        },
{
    let k = match find_last(net_id, '.') {
        Some(k) => k,
        None => return None,
    };
    let n = char_len(net_id);
    let prefix = sub_str(net_id, 0, k);
    let member = sub_str(net_id, k + 1, n);
    if char_len(trim_str(prefix.as_str()).as_str()) > 0 && char_len(trim_str(member.as_str()).as_str()) > 0 {
        Some(prefix)
    } else {
        None
    }
}

/// The label a suffix gives: the name before it without separators, or the protocol family
/// when nothing is left.
pub open spec fn suffix_label(id: Seq<char>, lower: Seq<char>, suffix: Seq<char>, family: Seq<char>) -> Option<
    Seq<char>,
> {
    if ends_with(lower, suffix) {
        let p = trim_seps(id.subrange(0, id.len() - suffix.len()));
        Some(if p.len() == 0 { family } else { p })
    } else {
        None
    }
}

/// The label of the first suffix of the list that the lower-case name ends with.
pub open spec fn paired_suffix_spec(
    id: Seq<char>,
    lower: Seq<char>,
    suffixes: Seq<(Seq<char>, Seq<char>)>,
) -> Option<Seq<char>>
    decreases suffixes.len(),
{
    if suffixes.len() == 0 {
        None
    } else {
        match suffix_label(id, lower, suffixes[0].0, suffixes[0].1) {
            Some(x) => Some(x),
            None => paired_suffix_spec(id, lower, suffixes.drop_first()),
        }
    }
}

pub open spec fn str_pairs(s: Seq<(&str, &str)>) -> Seq<(Seq<char>, Seq<char>)> {
    s.map_values(|p: (&str, &str)| (p.0@, p.1@))
}

/// The label of the first matching suffix; `lower` is the name in ASCII lower case.
pub fn paired_suffix_label(net_id: &str, lower: &str, suffixes: &[(&str, &str)]) -> (r: Option<String>)
    requires
        lower@.len() == net_id@.len(),
    ensures
        match r {
            Some(s) => paired_suffix_spec(net_id@, lower@, str_pairs(suffixes@)) == Some(s@),
            None => paired_suffix_spec(net_id@, lower@, str_pairs(suffixes@)) is None,
        },
{
    let ghost all = str_pairs(suffixes@);
    let mut i: usize = 0;
    assert(all.subrange(0, all.len() as int) =~= all);
    while i < suffixes.len()
        invariant
            all == str_pairs(suffixes@),
            lower@.len() == net_id@.len(),
            i <= suffixes@.len(),
            paired_suffix_spec(net_id@, lower@, all) == paired_suffix_spec(
                net_id@,
                lower@,
                all.subrange(i as int, all.len() as int),
            ),
        decreases suffixes@.len() - i,
    {
        let ghost rest = all.subrange(i as int, all.len() as int);
        assert(rest[0] == (suffixes@[i as int].0@, suffixes@[i as int].1@));
        assert(rest.drop_first() =~= all.subrange(i + 1, all.len() as int));
        let (suffix, family) = suffixes[i];
        if str_ends_with(lower, suffix) {
            let cut = char_len(net_id) - char_len(suffix);
            let head = sub_str(net_id, 0, cut);
            let prefix = trim_group_separator(head.as_str());
            if char_len(prefix.as_str()) == 0 {
                return Some(str_to_string(family));
            }
            return Some(prefix);
        }
        i = i + 1;
    }
    assert(all.subrange(suffixes@.len() as int, all.len() as int) =~= Seq::<(Seq<char>, Seq<char>)>::empty());
    None
}

/// An RS-485 pair: `_a`, `_b`, `-a` or `-b` after a name that mentions 485.
pub open spec fn rs485_step(id: Seq<char>, lower: Seq<char>, suffix: Seq<char>) -> Option<Seq<char>> {
    if ends_with(lower, suffix) {
        let p = trim_seps(id.subrange(0, id.len() - suffix.len()));
        if contains_seq(ascii_lower(p), "rs485"@) || contains_seq(ascii_lower(p), "485"@) {
            Some(p)
        } else {
            None
        }
    } else {
        None
    }
}

pub open spec fn rs485_spec(id: Seq<char>, lower: Seq<char>) -> Option<Seq<char>> {
    let suffixes = seq!["_a"@, "_b"@, "-a"@, "-b"@];
    if rs485_step(id, lower, suffixes[0]) is Some {
        rs485_step(id, lower, suffixes[0])
    } else if rs485_step(id, lower, suffixes[1]) is Some {
        rs485_step(id, lower, suffixes[1])
    } else if rs485_step(id, lower, suffixes[2]) is Some {
        rs485_step(id, lower, suffixes[2])
    } else {
        rs485_step(id, lower, suffixes[3])
    }
}

fn rs485_try(net_id: &str, lower: &str, suffix: &str) -> (r: Option<String>)
    requires
        lower@.len() == net_id@.len(),
    ensures
        match r {
            Some(s) => rs485_step(net_id@, lower@, suffix@) == Some(s@),
            None => rs485_step(net_id@, lower@, suffix@) is None,
        },
{
    if !str_ends_with(lower, suffix) {
        return None;
    }
    let cut = char_len(net_id) - char_len(suffix);
    let head = sub_str(net_id, 0, cut);
    let prefix = trim_group_separator(head.as_str());
    let prefix_lower = ascii_lower_str(prefix.as_str());
    if str_contains(prefix_lower.as_str(), "rs485") || str_contains(prefix_lower.as_str(), "485") {
        Some(prefix)
    } else {
        None
    }
}

/// The RS-485 pair label of a net name; `lower` is the name in ASCII lower case.
pub fn rs485_pair_label(net_id: &str, lower: &str) -> (r: Option<String>)
    requires
        lower@.len() == net_id@.len(),
    ensures
        match r {
            Some(s) => rs485_spec(net_id@, lower@) == Some(s@),
            None => rs485_spec(net_id@, lower@) is None,
        },
{
    if let Some(p) = rs485_try(net_id, lower, "_a") {
        return Some(p);
    }
    if let Some(p) = rs485_try(net_id, lower, "_b") {
        return Some(p);
    }
    if let Some(p) = rs485_try(net_id, lower, "-a") {
        return Some(p);
    }
    rs485_try(net_id, lower, "-b")
}

pub open spec fn can_suffixes() -> Seq<(Seq<char>, Seq<char>)> {
    seq![("_canh"@, "CAN"@), ("_canl"@, "CAN"@)]
}

pub open spec fn i2c_suffixes() -> Seq<(Seq<char>, Seq<char>)> {
    seq![("_scl"@, "I2C"@), ("_sda"@, "I2C"@)]
}

pub open spec fn usb_suffixes() -> Seq<(Seq<char>, Seq<char>)> {
    seq![("_dp"@, "USB"@), ("_dm"@, "USB"@), ("_dplus"@, "USB"@), ("_dminus"@, "USB"@)]
}

/// A bare protocol net name: `canh`/`canl`, `scl`/`sda`, `d+`/`dp`/`d-`/`dm`.
pub open spec fn bare_protocol_spec(lower: Seq<char>) -> Option<Seq<char>> {
    if lower == "canh"@ || lower == "canl"@ {
        Some("CAN"@)
    } else if lower == "scl"@ || lower == "sda"@ {
        Some("I2C"@)
    } else if lower == "d+"@ || lower == "dp"@ || lower == "d-"@ || lower == "dm"@ {
        Some("USB"@)
    } else {
        None
    }
}

/// The first of: a CAN, I2C or USB suffix pair, an RS-485 pair, a bare protocol name.
pub open spec fn protocol_pair_spec(id: Seq<char>) -> Option<Seq<char>> {
    let lower = ascii_lower(id);
    if paired_suffix_spec(id, lower, can_suffixes()) is Some {
        paired_suffix_spec(id, lower, can_suffixes())
    } else if paired_suffix_spec(id, lower, i2c_suffixes()) is Some {
        paired_suffix_spec(id, lower, i2c_suffixes())
    } else if paired_suffix_spec(id, lower, usb_suffixes()) is Some {
        paired_suffix_spec(id, lower, usb_suffixes())
    } else if rs485_spec(id, lower) is Some {
        rs485_spec(id, lower)
    } else {
        bare_protocol_spec(lower)
    }
}

/// The protocol label of a net name.
pub fn protocol_pair_label(net_id: &str) -> (r: Option<String>)
    ensures
        match r {
            Some(s) => protocol_pair_spec(net_id@) == Some(s@),
            None => protocol_pair_spec(net_id@) is None,
        },
{
    let lower = ascii_lower_str(net_id);
    let can: [(&str, &str); 2] = [("_canh", "CAN"), ("_canl", "CAN")];
    assert(str_pairs(can@) =~= can_suffixes());
    if let Some(p) = paired_suffix_label(net_id, lower.as_str(), &can) {
        return Some(p);
    }
    let i2c: [(&str, &str); 2] = [("_scl", "I2C"), ("_sda", "I2C")];
    assert(str_pairs(i2c@) =~= i2c_suffixes());
    if let Some(p) = paired_suffix_label(net_id, lower.as_str(), &i2c) {
        return Some(p);
    }
    let usb: [(&str, &str); 4] = [("_dp", "USB"), ("_dm", "USB"), ("_dplus", "USB"), ("_dminus", "USB")];
    assert(str_pairs(usb@) =~= usb_suffixes());
    if let Some(p) = paired_suffix_label(net_id, lower.as_str(), &usb) {
        return Some(p);
    }
    if let Some(p) = rs485_pair_label(net_id, lower.as_str()) {
        return Some(p);
    }
    let l = lower.as_str();
    if text_eq(l, "canh") || text_eq(l, "canl") {
        Some(str_to_string("CAN"))
    } else if text_eq(l, "scl") || text_eq(l, "sda") {
        Some(str_to_string("I2C"))
    } else if text_eq(l, "d+") || text_eq(l, "dp") || text_eq(l, "d-") || text_eq(l, "dm") {
        Some(str_to_string("USB"))
    } else {
        None
    }
}

/// The bundle a net belongs to: by bus brackets, else by protocol pair, else by dotted
/// namespace, of the trimmed name; none for a blank name.
pub open spec fn net_bundle_label_spec(net_id: Seq<char>) -> Option<Seq<char>> {
    let t = trim(net_id);
    if t.len() == 0 {
        None
    } else if bracket_bus_spec(t) is Some {
        bracket_bus_spec(t)
    } else if protocol_pair_spec(t) is Some {
        protocol_pair_spec(t)
    } else {
        dot_namespace_spec(t)
    }
}

/// The bundle label of a net.
pub fn net_bundle_label(net_id: &str) -> (r: Option<String>)
    ensures
        match r {
            Some(s) => net_bundle_label_spec(net_id@) == Some(s@),
            None => net_bundle_label_spec(net_id@) is None,
        },
{
    let trimmed = trim_str(net_id);
    if char_len(trimmed.as_str()) == 0 {
        return None;
    }
    if let Some(l) = bracket_bus_label(trimmed.as_str()) {
        return Some(l);
    }
    if let Some(l) = protocol_pair_label(trimmed.as_str()) {
        return Some(l);
    }
    dot_namespace_label(trimmed.as_str())
}

/// `s` does not end with `suf` when they differ at one place of the suffix.
proof fn lemma_not_ends(s: Seq<char>, suf: Seq<char>, j: int)
    requires
        suf.len() > s.len() || (0 <= j < suf.len() && s[s.len() - suf.len() + j] != suf[j]),
    ensures
        !ends_with(s, suf),
{
    if suf.len() <= s.len() {
        assert(s.subrange(s.len() - suf.len(), s.len() as int)[j] != suf[j]);
    }
}

/// A three-letter name that is `scl` or `sda` in any case: no bus bracket, and the protocol
/// label I2C.
proof fn lemma_bare_i2c(t: Seq<char>)
    requires
        ascii_lower(t) == "scl"@ || ascii_lower(t) == "sda"@,
    ensures
        t.len() == 3,
        bracket_bus_spec(t) is None,
        protocol_pair_spec(t) == Some("I2C"@),
{
    reveal_strlit("scl");
    reveal_strlit("sda");
    let lower = ascii_lower(t);
    assert(lower.len() == t.len());
    assert forall|k: int| 0 <= k < t.len() implies #[trigger] t[k] != '[' by {
        assert(lower[k] == crate::text::ascii_lower_char(t[k]));
        if t[k] == '[' {
            assert(crate::text::ascii_lower_char('[') == '[');
        }
    }
    assert(!exists|k: int| is_last_pos(t, '[', k));
    reveal_strlit("_canh");
    reveal_strlit("_canl");
    reveal_strlit("_scl");
    reveal_strlit("_sda");
    reveal_strlit("_dp");
    reveal_strlit("_dm");
    reveal_strlit("_dplus");
    reveal_strlit("_dminus");
    reveal_strlit("_a");
    reveal_strlit("_b");
    reveal_strlit("-a");
    reveal_strlit("-b");
    reveal_strlit("canh");
    reveal_strlit("canl");
    reveal_strlit("I2C");
    lemma_not_ends(lower, "_canh"@, 0);
    lemma_not_ends(lower, "_canl"@, 0);
    lemma_not_ends(lower, "_scl"@, 0);
    lemma_not_ends(lower, "_sda"@, 0);
    lemma_not_ends(lower, "_dp"@, 0);
    lemma_not_ends(lower, "_dm"@, 0);
    lemma_not_ends(lower, "_dplus"@, 0);
    lemma_not_ends(lower, "_dminus"@, 0);
    lemma_not_ends(lower, "_a"@, 0);
    lemma_not_ends(lower, "_b"@, 0);
    lemma_not_ends(lower, "-a"@, 0);
    lemma_not_ends(lower, "-b"@, 0);
    let can = can_suffixes();
    assert(can.drop_first().drop_first() =~= Seq::<(Seq<char>, Seq<char>)>::empty());
    assert(paired_suffix_spec(t, lower, can.drop_first().drop_first()) is None);
    assert(paired_suffix_spec(t, lower, can.drop_first()) is None);
    assert(paired_suffix_spec(t, lower, can) is None);
    let i2c = i2c_suffixes();
    assert(i2c.drop_first().drop_first() =~= Seq::<(Seq<char>, Seq<char>)>::empty());
    assert(paired_suffix_spec(t, lower, i2c.drop_first().drop_first()) is None);
    assert(paired_suffix_spec(t, lower, i2c.drop_first()) is None);
    assert(paired_suffix_spec(t, lower, i2c) is None);
    let usb = usb_suffixes();
    let u1 = usb.drop_first();
    let u2 = u1.drop_first();
    let u3 = u2.drop_first();
    assert(u3.drop_first() =~= Seq::<(Seq<char>, Seq<char>)>::empty());
    assert(paired_suffix_spec(t, lower, u3.drop_first()) is None);
    assert(paired_suffix_spec(t, lower, u3) is None);
    assert(paired_suffix_spec(t, lower, u2) is None);
    assert(paired_suffix_spec(t, lower, u1) is None);
    assert(paired_suffix_spec(t, lower, usb) is None);
    assert(rs485_spec(t, lower) is None);
    assert(lower != "canh"@ && lower != "canl"@);
}

/// A net named `scl` or `sda`, in any case and with any surrounding white space, carries
/// the bundle label I2C.
pub proof fn law_bare_i2c_names(id: Seq<char>)
    requires
        ascii_lower(trim(id)) == "scl"@ || ascii_lower(trim(id)) == "sda"@,
    ensures
        net_bundle_label_spec(id) == Some("I2C"@),
{
    lemma_bare_i2c(trim(id));
}

/// Two nets named `scl` and `sda` (in any case) form the I2C bundle, with both as members.
pub proof fn law_i2c_pair_bundle(ids: Seq<Seq<char>>, a: Seq<char>, b: Seq<char>)
    requires
        ids.contains(a),
        ids.contains(b),
        ascii_lower(trim(a)) == "scl"@,
        ascii_lower(trim(b)) == "sda"@,
    ensures
        members_of(ids, "I2C"@).contains(a),
        members_of(ids, "I2C"@).contains(b),
        bundle_labels(ids).contains("I2C"@),
{
    law_bare_i2c_names(a);
    law_bare_i2c_names(b);
    reveal_strlit("scl");
    reveal_strlit("sda");
    assert(a != b) by {
        if a == b {
            assert("scl"@[1] != "sda"@[1]);
        }
    }
    assert(members_of(ids, "I2C"@).contains(a));
    assert(members_of(ids, "I2C"@).contains(b));
    assert(is_bundle_label(ids, "I2C"@));
}

// ---------------------------------------------------------------------------------------
// Bundles
// ---------------------------------------------------------------------------------------

/// A derived bundle: its label and member nets in name order.
#[derive(Debug, PartialEq, Eq)]
pub struct SketchNetBundle {
    pub label: String,
    pub members: Vec<String>,
}

/// The nets of `ids` labelled `label`.
pub open spec fn members_of(ids: Seq<Seq<char>>, label: Seq<char>) -> Set<Seq<char>> {
    Set::new(|id: Seq<char>| ids.contains(id) && net_bundle_label_spec(id) == Some(label))
}

/// A label of at least two different nets.
pub open spec fn is_bundle_label(ids: Seq<Seq<char>>, label: Seq<char>) -> bool {
    exists|a: Seq<char>, b: Seq<char>|
        a != b && #[trigger] members_of(ids, label).contains(a) && #[trigger] members_of(
            ids,
            label,
        ).contains(b)
}

pub open spec fn bundle_labels(ids: Seq<Seq<char>>) -> Set<Seq<char>> {
    Set::new(|l: Seq<char>| is_bundle_label(ids, l))
}

pub open spec fn bundle_label_views(r: Seq<SketchNetBundle>) -> Seq<Seq<char>> {
    r.map_values(|b: SketchNetBundle| b.label@)
}

/// The labels of the first `n` nets.
pub open spec fn labels_upto(ids: Seq<Seq<char>>, n: int) -> Set<Seq<char>> {
    Set::new(
        |l: Seq<char>| exists|k: int| 0 <= k < n && net_bundle_label_spec(#[trigger] ids[k]) == Some(l),
    )
}

/// The nets among the first `n` labelled `label`.
pub open spec fn members_upto(ids: Seq<Seq<char>>, label: Seq<char>, n: int) -> Set<Seq<char>> {
    Set::new(
        |id: Seq<char>|
            exists|k: int| 0 <= k < n && #[trigger] ids[k] == id && net_bundle_label_spec(id) == Some(label),
    )
}

fn members_with_label(net_ids: &Vec<String>, label: &str) -> (r: Vec<String>)
    ensures
        strictly_sorted(names(r@)),
        names(r@).to_set() == members_of(names(net_ids@), label@),
{
    let ghost ids = names(net_ids@);
    let mut r: Vec<String> = Vec::new();
    assert(names(r@).to_set() =~= members_upto(ids, label@, 0));
    let mut i: usize = 0;
    while i < net_ids.len()
        invariant
            ids == names(net_ids@),
            i <= net_ids@.len(),
            strictly_sorted(names(r@)),
            names(r@).to_set() == members_upto(ids, label@, i as int),
        decreases net_ids@.len() - i,
    {
        let id = net_ids[i].as_str();
        assert(ids[i as int] == id@);
        match net_bundle_label(id) {
            Some(l) => {
                if text_eq(l.as_str(), label) {
                    insert_sorted(&mut r, str_to_string(id));
                    assert(names(r@).to_set() =~= members_upto(ids, label@, i + 1));
                } else {
                    assert(names(r@).to_set() =~= members_upto(ids, label@, i + 1));
                }
            },
            None => {
                assert(names(r@).to_set() =~= members_upto(ids, label@, i + 1));
            },
        }
        i = i + 1;
    }
    assert(members_upto(ids, label@, ids.len() as int) =~= members_of(ids, label@)) by {
        assert forall|id: Seq<char>| members_of(ids, label@).contains(id) implies members_upto(
            ids,
            label@,
            ids.len() as int,
        ).contains(id) by {
            let k = choose|k: int| 0 <= k < ids.len() && ids[k] == id;
            assert(ids[k] == id);
        }
    }
    r
}

/// A sorted sequence of distinct strings has two elements exactly when it holds two
/// different strings.
proof fn lemma_two_distinct(v: Seq<Seq<char>>)
    requires
        strictly_sorted(v),
    ensures
        v.len() >= 2 <==> exists|a: Seq<char>, b: Seq<char>|
            a != b && #[trigger] v.to_set().contains(a) && #[trigger] v.to_set().contains(b),
{
    if v.len() >= 2 {
        assert(seq_lt(v[0], v[1]));
        lemma_lt_irreflexive(v[0]);
        assert(v.to_set().contains(v[0]) && v.to_set().contains(v[1]));
    } else {
        if exists|a: Seq<char>, b: Seq<char>|
            a != b && #[trigger] v.to_set().contains(a) && #[trigger] v.to_set().contains(b) {
            let (a, b) = choose|a: Seq<char>, b: Seq<char>|
                a != b && #[trigger] v.to_set().contains(a) && #[trigger] v.to_set().contains(b);
            let i = choose|i: int| 0 <= i < v.len() && v[i] == a;
            let j = choose|j: int| 0 <= j < v.len() && v[j] == b;
            assert(i == 0 && j == 0);
        }
    }
}

/// Groups the nets by bundle label: one bundle per label that at least two different nets
/// carry, in label order, with its members in name order.
pub fn derive_net_bundles(net_ids: &Vec<String>) -> (r: Vec<SketchNetBundle>)
    ensures
        strictly_sorted(bundle_label_views(r@)),
        bundle_label_views(r@).to_set() == bundle_labels(names(net_ids@)),
        forall|t: int|
            0 <= t < r@.len() ==> strictly_sorted(names(#[trigger] r@[t].members@)) && names(
                r@[t].members@,
            ).to_set() == members_of(names(net_ids@), r@[t].label@),
{
    let ghost ids = names(net_ids@);
    let mut labels: Vec<String> = Vec::new();
    assert(names(labels@).to_set() =~= labels_upto(ids, 0));
    let mut i: usize = 0;
    while i < net_ids.len()
        invariant
            ids == names(net_ids@),
            i <= net_ids@.len(),
            strictly_sorted(names(labels@)),
            names(labels@).to_set() == labels_upto(ids, i as int),
        decreases net_ids@.len() - i,
    {
        assert(ids[i as int] == net_ids@[i as int]@);
        match net_bundle_label(net_ids[i].as_str()) {
            Some(l) => {
                insert_sorted(&mut labels, l);
                assert(names(labels@).to_set() =~= labels_upto(ids, i + 1));
            },
            None => {
                assert(names(labels@).to_set() =~= labels_upto(ids, i + 1));
            },
        }
        i = i + 1;
    }
    let ghost lv = names(labels@);
    let mut r: Vec<SketchNetBundle> = Vec::new();
    let ghost mut idx: Seq<int> = Seq::empty();
    let mut q: usize = 0;
    while q < labels.len()
        invariant
            ids == names(net_ids@),
            lv == names(labels@),
            strictly_sorted(lv),
            lv.to_set() == labels_upto(ids, ids.len() as int),
            q <= labels@.len(),
            idx.len() == r@.len(),
            forall|t: int| 0 <= t < idx.len() ==> 0 <= #[trigger] idx[t] < q,
            forall|t: int| 0 <= t < idx.len() ==> r@[t].label@ == lv[#[trigger] idx[t]],
            forall|t1: int, t2: int| 0 <= t1 < t2 < idx.len() ==> #[trigger] idx[t1] < #[trigger] idx[t2],
            forall|t: int| 0 <= t < r@.len() ==> is_bundle_label(ids, #[trigger] r@[t].label@),
            forall|t: int|
                0 <= t < r@.len() ==> strictly_sorted(names(#[trigger] r@[t].members@)) && names(
                    r@[t].members@,
                ).to_set() == members_of(ids, r@[t].label@),
            forall|k: int|
                0 <= k < q && is_bundle_label(ids, #[trigger] lv[k]) ==> exists|t: int|
                    0 <= t < r@.len() && r@[t].label@ == lv[k],
        decreases labels@.len() - q,
    {
        let members = members_with_label(net_ids, labels[q].as_str());
        let ghost mv = names(members@);
        proof {
            lemma_two_distinct(mv);
            if is_bundle_label(ids, lv[q as int]) {
                let (a, b) = choose|a: Seq<char>, b: Seq<char>|
                    a != b && #[trigger] members_of(ids, lv[q as int]).contains(a) && #[trigger] members_of(
                        ids,
                        lv[q as int],
                    ).contains(b);
                assert(mv.to_set().contains(a) && mv.to_set().contains(b));
                assert(mv.len() >= 2);
            }
        }
        let ghost r_before = r@;
        if members.len() >= 2 {
            let b = SketchNetBundle { label: str_to_string(labels[q].as_str()), members };
            proof {
                idx = idx.push(q as int);
            }
            r.push(b);
            assert(r@[r@.len() - 1].label@ == lv[q as int]);
            assert(is_bundle_label(ids, lv[q as int])) by {
                let a = mv[0];
                let b2 = mv[1];
                assert(seq_lt(mv[0], mv[1]));
                lemma_lt_irreflexive(mv[0]);
                assert(mv.to_set().contains(a) && mv.to_set().contains(b2));
                assert(members_of(ids, lv[q as int]).contains(a));
                assert(members_of(ids, lv[q as int]).contains(b2));
            }
        }
        assert forall|k: int|
            0 <= k < q + 1 && is_bundle_label(ids, #[trigger] lv[k]) implies exists|t: int|
                0 <= t < r@.len() && r@[t].label@ == lv[k] by {
            if k < q {
                let t = choose|t: int| 0 <= t < r_before.len() && r_before[t].label@ == lv[k];
                assert(r@[t] == r_before[t]);
            } else {
                assert(r@[r@.len() - 1].label@ == lv[k]);
            }
        }
        q = q + 1;
    }
    proof {
        let bl = bundle_label_views(r@);
        assert forall|t1: int, t2: int| 0 <= t1 < t2 < bl.len() implies seq_lt(
            #[trigger] bl[t1],
            #[trigger] bl[t2],
        ) by {
            assert(idx[t1] < idx[t2]);
            assert(bl[t1] == lv[idx[t1]] && bl[t2] == lv[idx[t2]]);
        }
        assert forall|l: Seq<char>| bl.to_set().contains(l) implies bundle_labels(ids).contains(l) by {
            let t = choose|t: int| 0 <= t < bl.len() && bl[t] == l;
            assert(is_bundle_label(ids, r@[t].label@));
        }
        assert forall|l: Seq<char>| bundle_labels(ids).contains(l) implies bl.to_set().contains(l) by {
            let (a, b) = choose|a: Seq<char>, b: Seq<char>|
                a != b && #[trigger] members_of(ids, l).contains(a) && #[trigger] members_of(ids, l).contains(b);
            let k = choose|k: int| 0 <= k < ids.len() && ids[k] == a;
            assert(labels_upto(ids, ids.len() as int).contains(l));
            assert(lv.to_set().contains(l));
            let p = choose|p: int| 0 <= p < lv.len() && lv[p] == l;
            assert(is_bundle_label(ids, lv[p]));
            let t = choose|t: int| 0 <= t < r@.len() && r@[t].label@ == lv[p];
            assert(bl[t] == l);
        }
        assert(bl.to_set() =~= bundle_labels(ids));
    }
    r
}

} // verus!
