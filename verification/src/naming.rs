//! Identifier rules shared by the project editors: decimal suffixes, collision-free names,
//! trimming of preferred names and sanitising of probe targets.
use vstd::prelude::*;
use vstd::set_lib::*;
use crate::text::{
    all_ws, ascii_lower, ascii_lower_str, char_len, char_at, is_ascii_alnum, is_ascii_alnum_char,
    is_ws, is_ws_char, lemma_trim_empty_iff_all_ws, push_char, sub_str, text_eq, trim, trim_str,
    to_ascii_lower_char, ascii_lower_char,
};

verus! {

pub open spec fn digit_char(d: nat) -> char {
    if d == 0 {
        '0'
    } else if d == 1 {
        '1'
    } else if d == 2 {
        '2'
    } else if d == 3 {
        '3'
    } else if d == 4 {
        '4'
    } else if d == 5 {
        '5'
    } else if d == 6 {
        '6'
    } else if d == 7 {
        '7'
    } else if d == 8 {
        '8'
    } else {
        '9'
    }
}

/// The decimal representation of `n`, as `format!("{n}")` writes it.
pub open spec fn decimal(n: nat) -> Seq<char>
    decreases n,
{
    if n < 10 {
        seq![digit_char(n)]
    } else {
        decimal(n / 10).push(digit_char(n % 10))
    }
}

pub open spec fn digit_value(c: char) -> int {
    if c == '0' {
        0
    } else if c == '1' {
        1
    } else if c == '2' {
        2
    } else if c == '3' {
        3
    } else if c == '4' {
        4
    } else if c == '5' {
        5
    } else if c == '6' {
        6
    } else if c == '7' {
        7
    } else if c == '8' {
        8
    } else {
        9
    }
}

fn digit_of(d: u128) -> (c: char)
    requires
        d < 10,
    ensures
        c == digit_char(d as nat),
{
    if d == 0 {
        '0'
    } else if d == 1 {
        '1'
    } else if d == 2 {
        '2'
    } else if d == 3 {
        '3'
    } else if d == 4 {
        '4'
    } else if d == 5 {
        '5'
    } else if d == 6 {
        '6'
    } else if d == 7 {
        '7'
    } else if d == 8 {
        '8'
    } else {
        '9'
    }
}

pub open spec fn decimal_value(s: Seq<char>) -> int
    decreases s.len(),
{
    if s.len() == 0 {
        0
    } else {
        decimal_value(s.drop_last()) * 10 + digit_value(s.last())
    }
}

pub proof fn lemma_decimal_value(n: nat)
    ensures
        decimal_value(decimal(n)) == n,
        decimal(n).len() >= 1,
    decreases n,
{
    lemma_digit_roundtrip(n % 10);
    if n >= 10 {
        lemma_decimal_value(n / 10);
        assert(decimal(n).drop_last() =~= decimal(n / 10));
        assert(decimal(n).last() == digit_char(n % 10));
        assert((n / 10) * 10 + n % 10 == n);
        assert(decimal_value(decimal(n)) == decimal_value(decimal(n).drop_last()) * 10
            + digit_value(decimal(n).last()));
    } else {
        assert(decimal(n).drop_last() =~= Seq::<char>::empty());
        assert(decimal_value(Seq::<char>::empty()) == 0);
        assert(decimal_value(decimal(n)) == decimal_value(decimal(n).drop_last()) * 10
            + digit_value(decimal(n).last()));
    }
}

proof fn lemma_digit_roundtrip(d: nat)
    requires
        d < 10,
    ensures
        digit_value(digit_char(d)) == d,
{
}

pub proof fn lemma_decimal_injective(a: nat, b: nat)
    requires
        decimal(a) == decimal(b),
    ensures
        a == b,
{
    lemma_decimal_value(a);
    lemma_decimal_value(b);
}

/// `base` followed by `_` and the decimal form of `k`.
pub open spec fn suffixed(base: Seq<char>, k: nat) -> Seq<char> {
    base + seq!['_'] + decimal(k)
}

pub proof fn lemma_suffixed_injective(base: Seq<char>, a: nat, b: nat)
    requires
        suffixed(base, a) == suffixed(base, b),
    ensures
        a == b,
{
    let n = base.len() + 1;
    lemma_decimal_value(a);
    lemma_decimal_value(b);
    assert(suffixed(base, a).subrange(n as int, suffixed(base, a).len() as int) =~= decimal(a));
    assert(suffixed(base, b).subrange(n as int, suffixed(base, b).len() as int) =~= decimal(b));
    assert(decimal(a).len() == decimal(b).len());
    lemma_decimal_injective(a, b);
}

/// The views of a list of names.
pub open spec fn names(v: Seq<String>) -> Seq<Seq<char>> {
    v.map_values(|s: String| s@)
}

/// The first `k >= 2` whose suffixed name is free, with every smaller candidate taken.
pub open spec fn is_first_free_suffix(base: Seq<char>, existing: Seq<Seq<char>>, k: nat) -> bool {
    &&& k >= 2
    &&& !existing.contains(suffixed(base, k))
    &&& forall|j: nat| 2 <= j < k ==> existing.contains(#[trigger] suffixed(base, j))
}

/// The name that a collision-free search returns: `base` itself when it is free, otherwise
/// `base_k` for the least `k >= 2` that is free.
pub open spec fn first_free(base: Seq<char>, existing: Seq<Seq<char>>) -> Seq<char> {
    if !existing.contains(base) {
        base
    } else {
        suffixed(base, choose|k: nat| is_first_free_suffix(base, existing, k))
    }
}

/// Among the candidates `base_2 ..= base_{n+2}` at least one is not in a list of `n` names.
pub proof fn lemma_some_suffix_free(base: Seq<char>, existing: Seq<Seq<char>>)
    ensures
        exists|k: nat| 2 <= k <= existing.len() + 2 && !existing.contains(#[trigger] suffixed(base, k)),
{
    let n = existing.len();
    let cands = Seq::new((n + 1) as nat, |i: int| suffixed(base, (i + 2) as nat));
    if forall|k: nat| 2 <= k <= n + 2 ==> existing.contains(#[trigger] suffixed(base, k)) {
        assert(cands.no_duplicates()) by {
            assert forall|i: int, j: int|
                0 <= i < cands.len() && 0 <= j < cands.len() && i != j implies cands[i]
                != cands[j] by {
                if cands[i] == cands[j] {
                    lemma_suffixed_injective(base, (i + 2) as nat, (j + 2) as nat);
                }
            }
        }
        cands.unique_seq_to_set();
        existing.lemma_cardinality_of_set();
        assert(cands.to_set().subset_of(existing.to_set())) by {
            assert forall|x: Seq<char>| cands.to_set().contains(x) implies existing.to_set().contains(
                x,
            ) by {
                let i = choose|i: int| 0 <= i < cands.len() && cands[i] == x;
                assert(existing.contains(suffixed(base, (i + 2) as nat)));
            }
        }
        vstd::seq_lib::seq_to_set_is_finite(existing);
        lemma_len_subset(cands.to_set(), existing.to_set());
        assert(false);
    }
}

/// The least free suffix exists.
pub proof fn lemma_first_free_suffix_exists(base: Seq<char>, existing: Seq<Seq<char>>)
    ensures
        exists|k: nat| is_first_free_suffix(base, existing, k),
{
    lemma_some_suffix_free(base, existing);
    let k0 = choose|k: nat|
        2 <= k <= existing.len() + 2 && !existing.contains(#[trigger] suffixed(base, k));
    lemma_least_free_below(base, existing, k0, 2);
}

proof fn lemma_least_free_below(base: Seq<char>, existing: Seq<Seq<char>>, k0: nat, lo: nat)
    requires
        2 <= lo <= k0,
        !existing.contains(suffixed(base, k0)),
        forall|j: nat| 2 <= j < lo ==> existing.contains(#[trigger] suffixed(base, j)),
    ensures
        exists|k: nat| is_first_free_suffix(base, existing, k),
    decreases k0 - lo,
{
    if !existing.contains(suffixed(base, lo)) {
        assert(is_first_free_suffix(base, existing, lo));
    } else {
        lemma_least_free_below(base, existing, k0, lo + 1);
    }
}

/// When `base` is taken, the first free name is `base_k` for the first free suffix `k`.
pub proof fn lemma_first_free_suffixed(base: Seq<char>, existing: Seq<Seq<char>>, k: nat)
    requires
        existing.contains(base),
        is_first_free_suffix(base, existing, k),
    ensures
        first_free(base, existing) == suffixed(base, k),
{
    let c = choose|j: nat| is_first_free_suffix(base, existing, j);
    assert(is_first_free_suffix(base, existing, c));
    if c < k {
        assert(existing.contains(suffixed(base, c)));
    } else if c > k {
        assert(existing.contains(suffixed(base, k)));
    }
}

pub proof fn lemma_first_free_is_free(base: Seq<char>, existing: Seq<Seq<char>>)
    ensures
        !existing.contains(first_free(base, existing)),
{
    lemma_first_free_suffix_exists(base, existing);
}

/// The decimal form of `n`.
pub fn decimal_string(n: u128) -> (r: String)
    ensures
        r@ == decimal(n as nat),
{
    let mut digits: Vec<char> = Vec::new();
    let mut m: u128 = n;
    while m >= 10
        invariant
            decimal(n as nat) == decimal(m as nat) + digits@.reverse(),
        decreases m,
    {
        let c = digit_of(m % 10);
        assert(decimal(m as nat) == decimal((m / 10) as nat).push(c));
        let ghost old_digits = digits@;
        digits.push(c);
        assert(digits@.reverse() =~= seq![c] + old_digits.reverse());
        assert(decimal(n as nat) =~= decimal((m / 10) as nat) + digits@.reverse());
        m = m / 10;
    }
    let c = digit_of(m);
    assert(decimal(m as nat) == seq![c]);
    let ghost old_digits = digits@;
    digits.push(c);
    assert(digits@.reverse() =~= seq![c] + old_digits.reverse());
    assert(decimal(n as nat) =~= digits@.reverse());
    let mut r = String::new();
    let len = digits.len();
    let mut i: usize = 0;
    while i < len
        invariant
            len == digits@.len(),
            i <= len,
            r@ =~= digits@.reverse().subrange(0, i as int),
            decimal(n as nat) == digits@.reverse(),
        decreases len - i,
    {
        push_char(&mut r, digits[len - 1 - i]);
        i = i + 1;
    }
    r
}

pub fn contains_name(existing: &Vec<String>, name: &str) -> (r: bool)
    ensures
        r == names(existing@).contains(name@),
{
    let mut i: usize = 0;
    while i < existing.len()
        invariant
            i <= existing.len(),
            forall|k: int| 0 <= k < i ==> existing@[k]@ != name@,
        decreases existing.len() - i,
    {
        if text_eq(existing[i].as_str(), name) {
            assert(names(existing@)[i as int] == name@);
            return true;
        }
        i = i + 1;
    }
    proof {
        if names(existing@).contains(name@) {
            let k = choose|k: int| 0 <= k < names(existing@).len() && names(existing@)[k] == name@;
            assert(existing@[k]@ == name@);
        }
    }
    false
}

pub fn suffixed_string(base: &str, k: u128) -> (r: String)
    ensures
        r@ == suffixed(base@, k as nat),
{
    let mut r = base.to_owned();
    push_char(&mut r, '_');
    let d = decimal_string(k);
    r.append(d.as_str());
    r
}

/// The collision-free form of `base`: `base` when no name in `existing` equals it, otherwise
/// `base_2`, `base_3`, ... whichever comes first that is not taken.
pub fn first_free_name(base: &str, existing: &Vec<String>) -> (r: String)
    ensures
        r@ == first_free(base@, names(existing@)),
        !names(existing@).contains(r@),
{
    proof {
        lemma_first_free_is_free(base@, names(existing@));
    }
    if !contains_name(existing, base) {
        return base.to_owned();
    }
    let ghost ex = names(existing@);
    proof {
        lemma_some_suffix_free(base@, ex);
        lemma_first_free_suffix_exists(base@, ex);
    }
    let ghost kstar = choose|k: nat| is_first_free_suffix(base@, ex, k);
    let len: u128 = existing.len() as u128;
    let mut k: u128 = 2;
    while k <= len + 1
        invariant
            2 <= k,
            k <= existing.len() + 2,
            len == existing.len(),
            ex == names(existing@),
            ex.contains(base@),
            is_first_free_suffix(base@, ex, kstar),
            forall|j: nat| 2 <= j < k ==> ex.contains(#[trigger] suffixed(base@, j)),
        decreases existing.len() + 2 - k,
    {
        let candidate = suffixed_string(base, k);
        if !contains_name(existing, candidate.as_str()) {
            assert(is_first_free_suffix(base@, ex, k as nat));
            proof {
                lemma_first_free_suffixed(base@, ex, k as nat);
            }
            assert(kstar == k) by {
                if kstar < k {
                    assert(ex.contains(suffixed(base@, kstar)));
                } else if kstar > k {
                    assert(ex.contains(suffixed(base@, k as nat)));
                }
            }
            return candidate;
        }
        k = k + 1;
    }
    // every candidate below existing.len() + 2 is taken, so that one is free
    assert(kstar == k) by {
        if kstar < k {
            assert(ex.contains(suffixed(base@, kstar)));
        } else if kstar > k {
            assert(ex.contains(suffixed(base@, k as nat)));
            assert(!ex.contains(suffixed(base@, k as nat))) by {
                let j0 = choose|j: nat|
                    2 <= j <= ex.len() + 2 && !ex.contains(#[trigger] suffixed(base@, j));
                assert(j0 >= k);
            }
        }
    }
    proof {
        lemma_first_free_suffixed(base@, ex, k as nat);
    }
    suffixed_string(base, k)
}


/// The trimmed `preferred` name, or `fallback` when it is blank.
pub open spec fn nonblank(preferred: Seq<char>, fallback: Seq<char>) -> Seq<char> {
    if trim(preferred).len() == 0 {
        fallback
    } else {
        trim(preferred)
    }
}

pub fn nonblank_id(preferred: &str, fallback: &str) -> (r: String)
    ensures
        r@ == nonblank(preferred@, fallback@),
{
    let trimmed = trim_str(preferred);
    if char_len(trimmed.as_str()) == 0 {
        fallback.to_owned()
    } else {
        trimmed
    }
}

/// A name that is free among `existing`: the trimmed preferred name (or the fallback when it
/// is blank), made unique with a numeric suffix.
pub fn unique_id(preferred: &str, fallback: &str, existing: &Vec<String>) -> (r: String)
    ensures
        r@ == first_free(nonblank(preferred@, fallback@), names(existing@)),
        !names(existing@).contains(r@),
{
    let base = nonblank_id(preferred, fallback);
    first_free_name(base.as_str(), existing)
}

/// The characters of `s` with white space left out.
pub open spec fn without_ws(s: Seq<char>) -> Seq<char>
    decreases s.len(),
{
    if s.len() == 0 {
        s
    } else if is_ws(s.last()) {
        without_ws(s.drop_last())
    } else {
        without_ws(s.drop_last()).push(s.last())
    }
}

/// `quantity:expression`, with the expression's white space removed and ASCII letters
/// lowered, so that two spellings of one probe compare equal.
pub open spec fn normalized_expression_spec(expression: Seq<char>, quantity: Seq<char>) -> Seq<
    char,
> {
    quantity + seq![':'] + ascii_lower(without_ws(expression))
}

pub fn normalized_expression(expression: &str, quantity: &str) -> (r: String)
    ensures
        r@ == normalized_expression_spec(expression@, quantity@),
{
    let n = char_len(expression);
    let mut body = String::new();
    let mut i: usize = 0;
    while i < n
        invariant
            n == expression@.len(),
            i <= n,
            body@ == ascii_lower(without_ws(expression@.subrange(0, i as int))),
        decreases n - i,
    {
        let c = char_at(expression, i);
        let ghost pre = expression@.subrange(0, i as int);
        assert(expression@.subrange(0, i + 1).drop_last() =~= pre);
        if !is_ws_char(c) {
            push_char(&mut body, to_ascii_lower_char(c));
            assert(ascii_lower(without_ws(pre).push(c)) =~= ascii_lower(without_ws(pre)).push(
                ascii_lower_char(c),
            ));
        }
        i = i + 1;
    }
    assert(expression@.subrange(0, n as int) =~= expression@);
    let mut r = quantity.to_owned();
    push_char(&mut r, ':');
    r.append(body.as_str());
    r
}

/// Characters kept by probe-name sanitising: ASCII letters and digits stay, and each run of
/// other characters becomes one underscore.
pub open spec fn sanitize_raw(s: Seq<char>) -> Seq<char>
    decreases s.len(),
{
    if s.len() == 0 {
        s
    } else {
        let prev = sanitize_raw(s.drop_last());
        if is_ascii_alnum(s.last()) {
            prev.push(s.last())
        } else if prev.len() > 0 && prev.last() == '_' {
            prev
        } else {
            prev.push('_')
        }
    }
}

pub open spec fn strip_start(s: Seq<char>, c: char) -> Seq<char>
    decreases s.len(),
{
    if s.len() > 0 && s[0] == c {
        strip_start(s.drop_first(), c)
    } else {
        s
    }
}

pub open spec fn strip_end(s: Seq<char>, c: char) -> Seq<char>
    decreases s.len(),
{
    if s.len() > 0 && s.last() == c {
        strip_end(s.drop_last(), c)
    } else {
        s
    }
}

/// `s` with `c` removed at both ends, as `str::trim_matches(c)` does.
pub open spec fn strip(s: Seq<char>, c: char) -> Seq<char> {
    strip_end(strip_start(s, c), c)
}

pub open spec fn sanitize(s: Seq<char>) -> Seq<char> {
    strip(sanitize_raw(s), '_')
}

pub open spec fn all_eq(s: Seq<char>, c: char) -> bool {
    forall|i: int| 0 <= i < s.len() ==> #[trigger] s[i] == c
}

proof fn lemma_strip_start_skip(s: Seq<char>, c: char, i: int)
    requires
        0 <= i <= s.len(),
        all_eq(s.subrange(0, i), c),
    ensures
        strip_start(s, c) == strip_start(s.subrange(i, s.len() as int), c),
    decreases i,
{
    if i > 0 {
        assert(s.subrange(0, i)[0] == c);
        let t = s.drop_first();
        assert forall|k: int| 0 <= k < i - 1 implies #[trigger] t.subrange(0, i - 1)[k] == c by {
            assert(s.subrange(0, i)[k + 1] == t.subrange(0, i - 1)[k]);
        }
        lemma_strip_start_skip(t, c, i - 1);
        assert(t.subrange(i - 1, t.len() as int) =~= s.subrange(i, s.len() as int));
    } else {
        assert(s.subrange(0, s.len() as int) =~= s);
    }
}

proof fn lemma_strip_end_skip(s: Seq<char>, c: char, j: int)
    requires
        0 <= j <= s.len(),
        all_eq(s.subrange(j, s.len() as int), c),
    ensures
        strip_end(s, c) == strip_end(s.subrange(0, j), c),
    decreases s.len() - j,
{
    if j < s.len() {
        assert(s.subrange(j, s.len() as int)[s.len() - 1 - j] == c);
        let t = s.drop_last();
        assert forall|k: int| 0 <= k < t.len() - j implies #[trigger] t.subrange(
            j,
            t.len() as int,
        )[k] == c by {
            assert(s.subrange(j, s.len() as int)[k] == t.subrange(j, t.len() as int)[k]);
        }
        lemma_strip_end_skip(t, c, j);
        assert(t.subrange(0, j) =~= s.subrange(0, j));
    } else {
        assert(s.subrange(0, s.len() as int) =~= s);
    }
}

/// `s` without the character `c` at either end.
pub fn strip_char(s: &str, c: char) -> (r: String)
    ensures
        r@ == strip(s@, c),
{
    let n = char_len(s);
    let mut i: usize = 0;
    while i < n && char_at(s, i) == c
        invariant
            n == s@.len(),
            i <= n,
            all_eq(s@.subrange(0, i as int), c),
        decreases n - i,
    {
        assert forall|k: int| 0 <= k < i + 1 implies #[trigger] s@.subrange(0, i + 1)[k] == c by {
            if k < i {
                assert(s@.subrange(0, i as int)[k] == s@.subrange(0, i + 1)[k]);
            }
        }
        i = i + 1;
    }
    proof {
        lemma_strip_start_skip(s@, c, i as int);
    }
    let ghost a = s@.subrange(i as int, n as int);
    assert(strip_start(a, c) == a) by {
        if a.len() > 0 {
            assert(a[0] == s@[i as int]);
        }
    }
    let mut j: usize = n;
    while j > i && char_at(s, j - 1) == c
        invariant
            n == s@.len(),
            i <= j <= n,
            all_eq(s@.subrange(j as int, n as int), c),
        decreases j,
    {
        assert forall|k: int| 0 <= k < n - (j - 1) implies #[trigger] s@.subrange(
            j - 1,
            n as int,
        )[k] == c by {
            if k > 0 {
                assert(s@.subrange(j as int, n as int)[k - 1] == s@.subrange(j - 1, n as int)[k]);
            }
        }
        j = j - 1;
    }
    proof {
        let k = (j - i) as int;
        assert(a.subrange(k, a.len() as int) =~= s@.subrange(j as int, n as int));
        lemma_strip_end_skip(a, c, k);
        let b = a.subrange(0, k);
        assert(b =~= s@.subrange(i as int, j as int));
        if b.len() > 0 {
            assert(b.last() == s@[j - 1]);
        }
        assert(strip_end(b, c) == b);
    }
    sub_str(s, i, j)
}

/// The probe-name form of a target id: ASCII letters and digits kept, other runs turned into
/// single underscores, and underscores at both ends removed.
pub fn sanitize_probe_id(value: &str) -> (r: String)
    ensures
        r@ == sanitize(value@),
{
    let n = char_len(value);
    let mut raw = String::new();
    let mut i: usize = 0;
    while i < n
        invariant
            n == value@.len(),
            i <= n,
            raw@ == sanitize_raw(value@.subrange(0, i as int)),
        decreases n - i,
    {
        let c = char_at(value, i);
        let ghost pre = value@.subrange(0, i as int);
        assert(value@.subrange(0, i + 1).drop_last() =~= pre);
        assert(value@.subrange(0, i + 1).last() == c);
        if is_ascii_alnum_char(c) {
            push_char(&mut raw, c);
        } else {
            let m = char_len(raw.as_str());
            if !(m > 0 && char_at(raw.as_str(), m - 1) == '_') {
                push_char(&mut raw, '_');
            }
        }
        i = i + 1;
    }
    assert(value@.subrange(0, n as int) =~= value@);
    strip_char(raw.as_str(), '_')
}

/// `prefix_target`, where the target is sanitised and `probe` stands in for an empty one.
pub open spec fn auto_probe_base(prefix: Seq<char>, target: Seq<char>) -> Seq<char> {
    if sanitize(target).len() == 0 {
        prefix + seq!['_'] + seq!['p', 'r', 'o', 'b', 'e']
    } else {
        prefix + seq!['_'] + sanitize(target)
    }
}

/// Picks a probe name for `target` that no name in `existing` has, and records it there.
pub fn unique_auto_probe_name(prefix: &str, target: &str, existing: &mut Vec<String>) -> (r:
    String)
    ensures
        r@ == first_free(auto_probe_base(prefix@, target@), names(old(existing)@)),
        !names(old(existing)@).contains(r@),
        final(existing)@ == old(existing)@.push(r),
{
    let suffix = sanitize_probe_id(target);
    let mut base = prefix.to_owned();
    push_char(&mut base, '_');
    if char_len(suffix.as_str()) == 0 {
        base.append("probe");
        proof {
            reveal_strlit("probe");
        }
        assert("probe"@ =~= seq!['p', 'r', 'o', 'b', 'e']);
        assert(base@ =~= auto_probe_base(prefix@, target@));
    } else {
        base.append(suffix.as_str());
        assert(base@ =~= auto_probe_base(prefix@, target@));
    }
    let r = first_free_name(base.as_str(), existing);
    existing.push(r.clone());
    r
}

} // verus!
