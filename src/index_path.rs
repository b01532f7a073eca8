use vstd::prelude::*;
use vstd::string::*;

use crate::errors::FetchError;
use crate::text::{append_chars, ascii_lowercase, lower, push_char};

verus! {

/// Where the index file of a crate stands in the index tree, by the length
/// of its lowercased name.
pub open spec fn path_for(name: Seq<char>) -> Seq<char> {
    let l = lower(name);
    if l.len() == 1 {
        seq!['1', '/'] + l
    } else if l.len() == 2 {
        seq!['2', '/'] + l
    } else if l.len() == 3 {
        seq!['3', '/'] + l.subrange(0, 1) + seq!['/'] + l
    } else {
        l.subrange(0, 2) + seq!['/'] + l.subrange(2, 4) + seq!['/'] + l
    }
}

/// The path of a crate's file inside the registry index.
pub fn summary_raw_path(crate_name: &str) -> (r: String)
    requires
        crate_name@.len() > 0,
    ensures
        r@ == path_for(crate_name@),
{
    let name = ascii_lowercase(crate_name);
    let lowered = name.as_str();
    let n = lowered.unicode_len();
    let mut out = String::new();
    if n == 1 {
        push_char(&mut out, '1');
        push_char(&mut out, '/');
        append_chars(&mut out, lowered, 0, n);
    } else if n == 2 {
        push_char(&mut out, '2');
        push_char(&mut out, '/');
        append_chars(&mut out, lowered, 0, n);
    } else if n == 3 {
        push_char(&mut out, '3');
        push_char(&mut out, '/');
        append_chars(&mut out, lowered, 0, 1);
        push_char(&mut out, '/');
        append_chars(&mut out, lowered, 0, n);
    } else {
        append_chars(&mut out, lowered, 0, 2);
        push_char(&mut out, '/');
        append_chars(&mut out, lowered, 2, 4);
        push_char(&mut out, '/');
        append_chars(&mut out, lowered, 0, n);
    }
    assert(lowered@.subrange(0, n as int) =~= lowered@);
    assert(out@ =~= path_for(crate_name@));
    out
}

/// The characters that fuzzy matching may swap for one another.
pub open spec fn is_separator(c: char) -> bool {
    c == '-' || c == '_'
}

/// The positions below `n` that hold a separator, in ascending order.
pub open spec fn separators_upto(s: Seq<char>, n: int) -> Seq<int>
    decreases n,
{
    if n <= 0 {
        Seq::empty()
    } else if is_separator(s[n - 1]) {
        separators_upto(s, n - 1).push(n - 1)
    } else {
        separators_upto(s, n - 1)
    }
}

/// At most this many separator positions take part in fuzzy matching,
/// which bounds the number of spellings at 1024.
pub const MAX_WILDCARDS: usize = 10;

/// The first positions (at most `MAX_WILDCARDS`) that hold a separator.
pub open spec fn capped(p: Seq<int>) -> Seq<int> {
    if p.len() > MAX_WILDCARDS {
        p.take(MAX_WILDCARDS as int)
    } else {
        p
    }
}

/// The positions whose separator fuzzy matching varies.
pub open spec fn wildcard_positions(s: Seq<char>) -> Seq<int> {
    capped(separators_upto(s, s.len() as int))
}

pub open spec fn two_pow(k: nat) -> nat
    decreases k,
{
    if k == 0 {
        1
    } else {
        2 * two_pow((k - 1) as nat)
    }
}

/// Bit `k` of a mask picks `-` (set) or `_` (clear).
pub open spec fn mask_bit(mask: u32, k: int) -> bool {
    (mask >> (k as u32)) & 1u32 == 1u32
}

pub open spec fn separator_for(bit: bool) -> char {
    if bit {
        '-'
    } else {
        '_'
    }
}

/// `s` with the first `k` of the positions `pos` set as the mask's bits say.
pub open spec fn apply_mask(s: Seq<char>, pos: Seq<int>, mask: u32, k: nat) -> Seq<char>
    decreases k,
{
    if k == 0 || k > pos.len() {
        s
    } else {
        apply_mask(s, pos, mask, (k - 1) as nat).update(
            pos[k - 1],
            separator_for(mask_bit(mask, k - 1)),
        )
    }
}

/// The spelling of `s` that a mask selects.
pub open spec fn fuzzy_variant(s: Seq<char>, mask: u32) -> Seq<char> {
    apply_mask(s, wildcard_positions(s), mask, wildcard_positions(s).len())
}

/// Every spelling of `s`, in the order of their masks.
pub open spec fn all_variants(s: Seq<char>) -> Seq<Seq<char>> {
    Seq::new(two_pow(wildcard_positions(s).len()), |m: int| fuzzy_variant(s, m as u32))
}

/// The first index at or after `i` where `v` holds `x`, or -1.
pub open spec fn first_index_from(v: Seq<Seq<char>>, x: Seq<char>, i: int) -> int
    decreases v.len() - i,
{
    if i < 0 || i >= v.len() {
        -1
    } else if v[i] == x {
        i
    } else {
        first_index_from(v, x, i + 1)
    }
}

/// The spellings in the order they are tried: the exact name first.
pub open spec fn fuzzy_order(s: Seq<char>) -> Seq<Seq<char>> {
    let v = all_variants(s);
    let i = first_index_from(v, s, 0);
    if i >= 0 {
        v.update(0, v[i]).update(i, v[0])
    } else {
        v
    }
}

proof fn lemma_separators_bounds(s: Seq<char>, n: int)
    requires
        0 <= n <= s.len(),
    ensures
        forall|j: int|
            0 <= j < separators_upto(s, n).len() ==> 0 <= #[trigger] separators_upto(s, n)[j] < n
                && is_separator(s[separators_upto(s, n)[j]]),
        forall|a: int, b: int|
            0 <= a < b < separators_upto(s, n).len() ==> separators_upto(s, n)[a]
                < separators_upto(s, n)[b],
    decreases n,
{
    if n > 0 {
        lemma_separators_bounds(s, n - 1);
        let p = separators_upto(s, n - 1);
        if is_separator(s[n - 1]) {
            assert(separators_upto(s, n) == p.push(n - 1));
        } else {
            assert(separators_upto(s, n) == p);
        }
    }
}

proof fn lemma_wildcards_bounds(s: Seq<char>)
    ensures
        wildcard_positions(s).len() <= MAX_WILDCARDS,
        forall|j: int|
            0 <= j < wildcard_positions(s).len() ==> 0 <= #[trigger] wildcard_positions(s)[j]
                < s.len() && is_separator(s[wildcard_positions(s)[j]]),
        forall|a: int, b: int|
            0 <= a < b < wildcard_positions(s).len() ==> wildcard_positions(s)[a]
                < wildcard_positions(s)[b],
{
    lemma_separators_bounds(s, s.len() as int);
}

proof fn lemma_apply_mask_len(s: Seq<char>, pos: Seq<int>, mask: u32, k: nat)
    requires
        forall|j: int| 0 <= j < pos.len() ==> 0 <= #[trigger] pos[j] < s.len(),
    ensures
        apply_mask(s, pos, mask, k).len() == s.len(),
    decreases k,
{
    if k > 0 && k <= pos.len() {
        lemma_apply_mask_len(s, pos, mask, (k - 1) as nat);
        assert(0 <= pos[k - 1] < s.len());
    }
}

proof fn lemma_two_pow_monotone(a: nat, b: nat)
    requires
        a <= b,
    ensures
        two_pow(a) <= two_pow(b),
    decreases b,
{
    if a < b {
        lemma_two_pow_monotone(a, (b - 1) as nat);
    }
}

proof fn lemma_two_pow_capped(j: nat)
    requires
        j <= MAX_WILDCARDS,
    ensures
        two_pow(j) <= 1024,
{
    lemma_two_pow_monotone(j, 10);
    reveal_with_fuel(two_pow, 11);
    assert(two_pow(10) == 1024);
}

fn chars_of(s: &str) -> (r: Vec<char>)
    ensures
        r@ == s@,
{
    let n = s.unicode_len();
    let mut out: Vec<char> = Vec::new();
    let mut i: usize = 0;
    while i < n
        invariant
            n == s@.len(),
            i <= n,
            out@ == s@.subrange(0, i as int),
        decreases n - i,
    {
        out.push(s.get_char(i));
        i = i + 1;
        assert(out@ =~= s@.subrange(0, i as int));
    }
    assert(out@ =~= s@);
    out
}

fn string_of(cs: &Vec<char>) -> (r: String)
    ensures
        r@ == cs@,
{
    let mut out = String::new();
    let mut i: usize = 0;
    while i < cs.len()
        invariant
            i <= cs@.len(),
            out@ == cs@.subrange(0, i as int),
        decreases cs.len() - i,
    {
        push_char(&mut out, cs[i]);
        i = i + 1;
        assert(out@ =~= cs@.subrange(0, i as int));
    }
    assert(out@ =~= cs@);
    out
}

/// The positions of the first separators of `s`, at most `MAX_WILDCARDS`.
fn wildcard_indexes(s: &Vec<char>) -> (r: Vec<usize>)
    ensures
        r@.len() == wildcard_positions(s@).len(),
        forall|j: int| 0 <= j < r@.len() ==> r@[j] as int == wildcard_positions(s@)[j],
{
    let mut out: Vec<usize> = Vec::new();
    let mut i: usize = 0;
    while i < s.len()
        invariant
            i <= s@.len(),
            out@.len() == capped(separators_upto(s@, i as int)).len(),
            forall|j: int|
                0 <= j < out@.len() ==> out@[j] as int == capped(separators_upto(s@, i as int))[j],
        decreases s.len() - i,
    {
        let c = s[i];
        if (c == '-' || c == '_') && out.len() < MAX_WILDCARDS {
            out.push(i);
        }
        i = i + 1;
    }
    out
}

/// Every spelling of a crate name that differs from it only in `-` and `_`
/// at its first `MAX_WILDCARDS` separator positions, in the order of the masks
/// that select them (bit `k` of the mask sets position `k` to `-`).
pub fn gen_fuzzy_crate_names(crate_name: String) -> (r: Result<Vec<String>, FetchError>)
    ensures
        r is Ok,
        r->Ok_0.len() == all_variants(crate_name@).len(),
        forall|i: int| 0 <= i < r->Ok_0.len() ==> #[trigger] r->Ok_0[i]@ == all_variants(crate_name@)[i],
{
    let ghost s = crate_name@;
    let chars = chars_of(crate_name.as_str());
    let wild = wildcard_indexes(&chars);
    let k = wild.len();
    proof {
        lemma_wildcards_bounds(s);
    }
    let mut total: u32 = 1;
    let mut j: usize = 0;
    while j < k
        invariant
            j <= k <= MAX_WILDCARDS,
            total as nat == two_pow(j as nat),
            total <= 1024,
        decreases k - j,
    {
        proof {
            lemma_two_pow_capped((j + 1) as nat);
        }
        total = total * 2;
        j = j + 1;
    }
    let mut result: Vec<String> = Vec::new();
    let mut mask: u32 = 0;
    while mask < total
        invariant
            mask <= total,
            total as nat == two_pow(k as nat),
            chars@ == s,
            k == wild@.len(),
            k == wildcard_positions(s).len(),
            forall|j: int| 0 <= j < k ==> wild@[j] as int == wildcard_positions(s)[j],
            forall|j: int|
                0 <= j < k ==> 0 <= #[trigger] wildcard_positions(s)[j] < s.len(),
            result@.len() == mask,
            forall|i: int| 0 <= i < mask ==> #[trigger] result@[i]@ == fuzzy_variant(s, i as u32),
        decreases total - mask,
    {
        let mut bytes = chars.clone();
        assert(bytes@ == s);
        let mut m: usize = 0;
        while m < k
            invariant
                m <= k,
                chars@ == s,
                k == wild@.len(),
                k == wildcard_positions(s).len(),
                forall|j: int| 0 <= j < k ==> wild@[j] as int == wildcard_positions(s)[j],
                forall|j: int|
                    0 <= j < k ==> 0 <= #[trigger] wildcard_positions(s)[j] < s.len(),
                bytes@ == apply_mask(s, wildcard_positions(s), mask, m as nat),
            decreases k - m,
        {
            proof {
                lemma_apply_mask_len(s, wildcard_positions(s), mask, m as nat);
            }
            let idx = wild[m];
            assert(idx as int == wildcard_positions(s)[m as int]);
            if (mask >> (m as u32)) & 1u32 == 1u32 {
                bytes.set(idx, '-');
            } else {
                bytes.set(idx, '_');
            }
            m = m + 1;
        }
        result.push(string_of(&bytes));
        mask = mask + 1;
    }
    Ok(result)
}


/// The spellings of a crate name in the order they are tried: as
/// `gen_fuzzy_crate_names` gives them, with the exact name swapped to the front.
pub fn fuzzy_names(crate_name: &str) -> (r: Vec<String>)
    ensures
        r@.len() == fuzzy_order(crate_name@).len(),
        forall|i: int| 0 <= i < r@.len() ==> #[trigger] r@[i]@ == fuzzy_order(crate_name@)[i],
{
    let owned = crate_name.to_owned();
    let target = crate_name.to_owned();
    let mut names = match gen_fuzzy_crate_names(owned) {
        Ok(v) => v,
        Err(_) => Vec::new(),
    };
    let ghost v = all_variants(crate_name@);
    let mut i: usize = 0;
    while i < names.len()
        invariant
            i <= names@.len(),
            target@ == crate_name@,
            v == all_variants(crate_name@),
            names@.len() == v.len(),
            forall|j: int| 0 <= j < names@.len() ==> #[trigger] names@[j]@ == v[j],
            first_index_from(v, crate_name@, 0) == first_index_from(v, crate_name@, i as int),
        decreases names.len() - i,
    {
        assert(names@[i as int]@ == v[i as int]);
        let same = names[i] == target;
        if same {
            assert(first_index_from(v, crate_name@, i as int) == i);
            let first = names[0].clone();
            let found = names[i].clone();
            names.set(0, found);
            names.set(i, first);
            assert(forall|j: int|
                0 <= j < names@.len() ==> #[trigger] names@[j]@ == fuzzy_order(crate_name@)[j]);
            return names;
        }
        i = i + 1;
    }
    assert(first_index_from(v, crate_name@, i as int) == -1);
    names
}

proof fn lemma_first_index(v: Seq<Seq<char>>, x: Seq<char>, i: int)
    requires
        0 <= i,
    ensures
        first_index_from(v, x, i) == -1 || (i <= first_index_from(v, x, i) < v.len() && v[first_index_from(v, x, i)] == x),
        first_index_from(v, x, i) == -1 ==> forall|k: int| i <= k < v.len() ==> v[k] != x,
        first_index_from(v, x, i) >= 0 ==> forall|k: int| i <= k < first_index_from(v, x, i) ==> v[k] != x,
    decreases v.len() - i,
{
    if i < v.len() && v[i] != x {
        lemma_first_index(v, x, i + 1);
    }
}

/// Every spelling keeps the length of the name.
pub proof fn lemma_fuzzy_order_lengths(s: Seq<char>)
    ensures
        forall|i: int|
            0 <= i < fuzzy_order(s).len() ==> (#[trigger] fuzzy_order(s)[i]).len() == s.len(),
{
    lemma_wildcards_bounds(s);
    let v = all_variants(s);
    assert forall|m: int| 0 <= m < v.len() implies (#[trigger] v[m]).len() == s.len() by {
        lemma_apply_mask_len(s, wildcard_positions(s), m as u32, wildcard_positions(s).len());
    }
    lemma_first_index(v, s, 0);
}

proof fn lemma_no_separators(s: Seq<char>, n: int)
    requires
        0 <= n <= s.len(),
        forall|i: int| 0 <= i < s.len() ==> !is_separator(#[trigger] s[i]),
    ensures
        separators_upto(s, n).len() == 0,
    decreases n,
{
    if n > 0 {
        lemma_no_separators(s, n - 1);
    }
}

/// A name without `-` or `_` has itself as its only spelling.
pub proof fn lemma_no_separator_single(s: Seq<char>)
    requires
        forall|i: int| 0 <= i < s.len() ==> !is_separator(#[trigger] s[i]),
    ensures
        fuzzy_order(s) == seq![s],
{
    lemma_no_separators(s, s.len() as int);
    let v = all_variants(s);
    assert(wildcard_positions(s).len() == 0);
    assert(v.len() == 1);
    assert(v[0] == s);
    assert(first_index_from(v, s, 0) == 0);
    assert(fuzzy_order(s) =~= seq![s]);
}

proof fn lemma_apply_mask_content(s: Seq<char>, pos: Seq<int>, mask: u32, k: nat)
    requires
        k <= pos.len(),
        forall|j: int| 0 <= j < pos.len() ==> 0 <= #[trigger] pos[j] < s.len(),
        forall|a: int, b: int| 0 <= a < b < pos.len() ==> pos[a] < pos[b],
    ensures
        apply_mask(s, pos, mask, k).len() == s.len(),
        forall|x: int|
            0 <= x < s.len() && (forall|j: int| 0 <= j < k ==> pos[j] != x) ==> #[trigger] apply_mask(
                s,
                pos,
                mask,
                k,
            )[x] == s[x],
        forall|j: int|
            0 <= j < k ==> apply_mask(s, pos, mask, k)[#[trigger] pos[j]] == separator_for(
                mask_bit(mask, j),
            ),
    decreases k,
{
    lemma_apply_mask_len(s, pos, mask, k);
    if k > 0 {
        lemma_apply_mask_content(s, pos, mask, (k - 1) as nat);
        lemma_apply_mask_len(s, pos, mask, (k - 1) as nat);
        let prev = apply_mask(s, pos, mask, (k - 1) as nat);
        let t = apply_mask(s, pos, mask, k);
        assert(t == prev.update(pos[k - 1], separator_for(mask_bit(mask, k - 1))));
        assert forall|x: int|
            0 <= x < s.len() && (forall|j: int| 0 <= j < k ==> pos[j] != x) implies #[trigger] t[x]
            == s[x] by {
            assert(pos[k - 1] != x);
            assert forall|j: int| 0 <= j < k - 1 implies pos[j] != x by {}
        }
        assert forall|j: int| 0 <= j < k implies t[#[trigger] pos[j]] == separator_for(
            mask_bit(mask, j),
        ) by {
            if j < k - 1 {
                assert(pos[j] < pos[k - 1]);
            }
        }
    }
}

proof fn lemma_masks_differ(m1: u32, m2: u32, k: nat)
    requires
        k <= 31,
        m1 < two_pow(k),
        m2 < two_pow(k),
        m1 != m2,
    ensures
        exists|j: int| 0 <= j < k && mask_bit(m1, j) != mask_bit(m2, j),
    decreases k,
{
    if k == 0 {
        assert(false);
    } else if mask_bit(m1, 0) != mask_bit(m2, 0) {
        assert(mask_bit(m1, 0) != mask_bit(m2, 0));
    } else {
        let h1: u32 = m1 >> 1u32;
        let h2: u32 = m2 >> 1u32;
        assert(mask_bit(m1, 0) == ((m1 >> 0u32) & 1u32 == 1u32));
        assert(mask_bit(m2, 0) == ((m2 >> 0u32) & 1u32 == 1u32));
        assert((((m1 >> 0u32) & 1u32) == 1u32) == (((m2 >> 0u32) & 1u32) == 1u32) && m1 != m2 ==> (
        m1 >> 1u32) != (m2 >> 1u32)) by (bit_vector);
        assert((m1 >> 1u32) == m1 / 2u32 && (m2 >> 1u32) == m2 / 2u32) by (bit_vector);
        lemma_masks_differ(h1, h2, (k - 1) as nat);
        let j = choose|j: int| 0 <= j < k - 1 && mask_bit(h1, j) != mask_bit(h2, j);
        let a: u32 = j as u32;
        assert(((m1 >> 1u32) >> a) & 1u32 == (m1 >> (a + 1u32)) & 1u32) by (bit_vector)
            requires
                a < 31u32,
        ;
        assert(((m2 >> 1u32) >> a) & 1u32 == (m2 >> (a + 1u32)) & 1u32) by (bit_vector)
            requires
                a < 31u32,
        ;
        assert(mask_bit(m1, j + 1) != mask_bit(m2, j + 1));
    }
}

/// With `k` separator positions taking part (the first `MAX_WILDCARDS` of
/// them), a name has `2^k` spellings, tried in `fuzzy_order`: each one is the
/// name with `-` or `_` at those positions and nothing else changed, no two
/// are equal, and the name itself, when among them, comes first.
pub proof fn lemma_fuzzy_spellings(s: Seq<char>)
    ensures
        fuzzy_order(s).len() == two_pow(wildcard_positions(s).len()),
        forall|i: int|
            0 <= i < fuzzy_order(s).len() ==> (#[trigger] fuzzy_order(s)[i]).len() == s.len(),
        forall|i: int, x: int|
            0 <= i < fuzzy_order(s).len() && 0 <= x < s.len() && !wildcard_positions(s).contains(x)
                ==> #[trigger] fuzzy_order(s)[i][x] == s[x],
        forall|i: int, j: int|
            0 <= i < fuzzy_order(s).len() && 0 <= j < wildcard_positions(s).len() ==> is_separator(
                #[trigger] fuzzy_order(s)[i][wildcard_positions(s)[j]],
            ),
        forall|i: int, j: int|
            0 <= i < j < fuzzy_order(s).len() ==> fuzzy_order(s)[i] != fuzzy_order(s)[j],
        fuzzy_order(s).contains(s) ==> fuzzy_order(s)[0] == s,
{
    let w = wildcard_positions(s);
    let k = w.len();
    let v = all_variants(s);
    let f = fuzzy_order(s);
    lemma_wildcards_bounds(s);
    lemma_two_pow_capped(k);
    lemma_first_index(v, s, 0);
    let idx = first_index_from(v, s, 0);
    assert forall|m: int| 0 <= m < v.len() implies {
        &&& (#[trigger] v[m]).len() == s.len()
        &&& forall|x: int| 0 <= x < s.len() && !w.contains(x) ==> v[m][x] == s[x]
        &&& forall|j: int| 0 <= j < k ==> v[m][w[j]] == separator_for(mask_bit(m as u32, j))
    } by {
        lemma_apply_mask_content(s, w, m as u32, k);
        assert forall|x: int| 0 <= x < s.len() && !w.contains(x) implies v[m][x] == s[x] by {
            assert forall|j: int| 0 <= j < k implies w[j] != x by {
                if w[j] == x {
                    assert(w.contains(x));
                }
            }
        }
    }
    assert forall|a: int, b: int| 0 <= a < b < v.len() implies v[a] != v[b] by {
        lemma_masks_differ(a as u32, b as u32, k);
        let j = choose|j: int| 0 <= j < k && #[trigger] mask_bit(a as u32, j) != mask_bit(b as u32, j);
        assert(v[a][w[j]] != v[b][w[j]]);
    }
    // Position `i` of the order holds the variant of `pick(i)`.
    let pick = |i: int|
        if idx >= 0 && i == 0 {
            idx
        } else if idx >= 0 && i == idx {
            0
        } else {
            i
        };
    assert forall|i: int| 0 <= i < f.len() implies f[i] == v[pick(i)] && 0 <= pick(i) < v.len() by {}
    assert forall|i: int, x: int|
        0 <= i < f.len() && 0 <= x < s.len() && !w.contains(x) implies #[trigger] f[i][x] == s[x] by {
        assert(f[i] == v[pick(i)]);
    }
    assert forall|i: int, j: int| 0 <= i < f.len() && 0 <= j < k implies is_separator(
        #[trigger] f[i][w[j]],
    ) by {
        assert(f[i] == v[pick(i)]);
    }
    assert forall|i: int| 0 <= i < f.len() implies (#[trigger] f[i]).len() == s.len() by {
        assert(f[i] == v[pick(i)]);
    }
    assert forall|i: int, j: int| 0 <= i < j < f.len() implies f[i] != f[j] by {
        assert(f[i] == v[pick(i)]);
        assert(f[j] == v[pick(j)]);
        if pick(i) < pick(j) {
            assert(v[pick(i)] != v[pick(j)]);
        } else {
            assert(v[pick(j)] != v[pick(i)]);
        }
    }
    if f.contains(s) {
        let i = choose|i: int| 0 <= i < f.len() && f[i] == s;
        assert(v[pick(i)] == s);
        assert(idx >= 0);
    }
}

} // verus!
