//! Character-level helpers shared by the parser, the class list and the
//! content hashes: character classes, string comparison, and a 64-bit
//! content hash over character sequences.

use vstd::prelude::*;
use vstd::string::*;

verus! {

// ---------------------------------------------------------------------------
// Character classes
// ---------------------------------------------------------------------------

/// Whitespace, as the stylesheet grammar understands it.
pub open spec fn is_space_char(c: char) -> bool {
    c == ' ' || c == '\t' || c == '\n' || c == '\r' || c == '\x0c'
}

#[verifier::allow_in_spec]
pub fn is_space(c: char) -> bool
    returns
        is_space_char(c),
{
    c == ' ' || c == '\t' || c == '\n' || c == '\r' || c == '\x0c'
}

/// An ASCII decimal digit.
pub open spec fn is_digit_char(c: char) -> bool {
    48 <= c as u32 <= 57
}

#[verifier::allow_in_spec]
pub fn is_digit(c: char) -> bool
    returns
        is_digit_char(c),
{
    let u = c as u32;
    48 <= u && u <= 57
}

/// An ASCII letter.
pub open spec fn is_alpha_char(c: char) -> bool {
    65 <= c as u32 <= 90 || 97 <= c as u32 <= 122
}

#[verifier::allow_in_spec]
pub fn is_alpha(c: char) -> bool
    returns
        is_alpha_char(c),
{
    let u = c as u32;
    (65 <= u && u <= 90) || (97 <= u && u <= 122)
}

/// A character that may continue an identifier: letters, digits, `_` and `-`.
pub open spec fn is_ident_char(c: char) -> bool {
    is_alpha_char(c) || is_digit_char(c) || c == '_' || c == '-'
}

#[verifier::allow_in_spec]
pub fn is_ident(c: char) -> bool
    returns
        is_ident_char(c),
{
    is_alpha(c) || is_digit(c) || c == '_' || c == '-'
}

/// A character that may open an identifier: letters and `_`.
pub open spec fn is_ident_start_char(c: char) -> bool {
    is_alpha_char(c) || c == '_'
}

#[verifier::allow_in_spec]
pub fn is_ident_start(c: char) -> bool
    returns
        is_ident_start_char(c),
{
    is_alpha(c) || c == '_'
}

// ---------------------------------------------------------------------------
// Strings
// ---------------------------------------------------------------------------

/// Compares two string slices character by character.
pub fn str_eq(a: &str, b: &str) -> (r: bool)
    ensures
        r == (a@ == b@),
{
    let na = a.unicode_len();
    let nb = b.unicode_len();
    if na != nb {
        proof {
            assert(a@ != b@);
        }
        return false;
    }
    let mut i: usize = 0;
    while i < na
        invariant
            na == a@.len(),
            na == b@.len(),
            i <= na,
            forall|j: int| 0 <= j < i ==> a@[j] == b@[j],
        decreases na - i,
    {
        if a.get_char(i) != b.get_char(i) {
            proof {
                assert(a@[i as int] != b@[i as int]);
            }
            return false;
        }
        i = i + 1;
    }
    proof {
        assert(a@ =~= b@);
    }
    true
}

// ---------------------------------------------------------------------------
// Content hash
// ---------------------------------------------------------------------------

/// Multiplier of the 64-bit FNV-1a hash.
pub const FNV_PRIME: u64 = 0x100000001b3;

/// Starting state of the 64-bit FNV-1a hash.
pub const FNV_OFFSET: u64 = 0xcbf29ce484222325;

/// One FNV-1a round: fold a value into the hash state.
pub open spec fn fnv_step(h: u64, x: u64) -> u64 {
    ((((h ^ x) as int) * (FNV_PRIME as int)) % 0x1_0000_0000_0000_0000) as u64
}

/// Folds `x` into the hash state `h`, one FNV-1a round.
pub fn fnv_step_exec(h: u64, x: u64) -> (r: u64)
    ensures
        r == fnv_step(h, x),
{
    let m: u128 = (h ^ x) as u128;
    proof {
        assert(m * (FNV_PRIME as u128) <= 0xffff_ffff_ffff_ffffu128 * 0xffff_ffff_ffff_ffffu128)
            by (nonlinear_arith)
            requires
                m <= 0xffff_ffff_ffff_ffffu128,
        ;
    }
    let p: u128 = m * (FNV_PRIME as u128);
    (p % 0x1_0000_0000_0000_0000u128) as u64
}

/// Hash state after folding in the characters of `s` from position `i` on.
pub open spec fn fnv_chars_from(s: Seq<char>, i: nat, h: u64) -> u64
    decreases s.len() - i,
{
    if i >= s.len() {
        h
    } else {
        fnv_chars_from(s, i + 1, fnv_step(h, s[i as int] as u64))
    }
}

/// Hash state after folding in all characters of `s`.
pub open spec fn fnv_chars(s: Seq<char>, h: u64) -> u64 {
    fnv_chars_from(s, 0, h)
}

/// Folds the characters of a string into the hash state `h`.
pub fn fnv_str(s: &str, h: u64) -> (r: u64)
    ensures
        r == fnv_chars(s@, h),
{
    let n = s.unicode_len();
    let mut cur = h;
    let mut i: usize = 0;
    while i < n
        invariant
            n == s@.len(),
            i <= n,
            fnv_chars_from(s@, i as nat, cur) == fnv_chars(s@, h),
        decreases n - i,
    {
        cur = fnv_step_exec(cur, s.get_char(i) as u64);
        i = i + 1;
    }
    cur
}

// ---------------------------------------------------------------------------
// Class lists
// ---------------------------------------------------------------------------

/// First position at or after `i` that does not hold whitespace.
pub open spec fn next_word_start(s: Seq<char>, i: nat) -> nat
    decreases s.len() - i,
{
    if i < s.len() && is_space_char(s[i as int]) {
        next_word_start(s, i + 1)
    } else {
        i
    }
}

/// First position at or after `i` that holds whitespace, or the end.
pub open spec fn word_end(s: Seq<char>, i: nat) -> nat
    decreases s.len() - i,
{
    if i < s.len() && !is_space_char(s[i as int]) {
        word_end(s, i + 1)
    } else {
        i
    }
}

proof fn lemma_next_word_start_bounds(s: Seq<char>, i: nat)
    requires
        i <= s.len(),
    ensures
        i <= next_word_start(s, i) <= s.len(),
    decreases s.len() - i,
{
    if i < s.len() && is_space_char(s[i as int]) {
        lemma_next_word_start_bounds(s, i + 1);
    }
}

proof fn lemma_next_word_start_nonspace(s: Seq<char>, i: nat)
    requires
        i <= s.len(),
    ensures
        next_word_start(s, i) < s.len() ==> !is_space_char(s[next_word_start(s, i) as int]),
    decreases s.len() - i,
{
    if i < s.len() && is_space_char(s[i as int]) {
        lemma_next_word_start_nonspace(s, i + 1);
    }
}

proof fn lemma_word_end_bounds(s: Seq<char>, i: nat)
    requires
        i <= s.len(),
    ensures
        i <= word_end(s, i) <= s.len(),
    decreases s.len() - i,
{
    if i < s.len() && !is_space_char(s[i as int]) {
        lemma_word_end_bounds(s, i + 1);
    }
}

/// The whitespace-separated words of `s` from position `i` on.
pub open spec fn split_ws_from(s: Seq<char>, i: nat) -> Seq<Seq<char>>
    decreases s.len() - i,
        when i <= s.len()
        via split_ws_from_dec
{
    let j = next_word_start(s, i);
    if j >= s.len() {
        Seq::empty()
    } else {
        let e = word_end(s, j);
        seq![s.subrange(j as int, e as int)] + split_ws_from(s, e)
    }
}

#[via_fn]
proof fn split_ws_from_dec(s: Seq<char>, i: nat) {
    lemma_next_word_start_bounds(s, i);
    lemma_next_word_start_nonspace(s, i);
    let j = next_word_start(s, i);
    if j < s.len() {
        assert(!is_space_char(s[j as int]));
        assert(word_end(s, j) == word_end(s, j + 1));
        lemma_word_end_bounds(s, j + 1);
    }
}

/// The whitespace-separated words of `s`: maximal runs of non-whitespace
/// characters, in order, never empty.
pub open spec fn spec_split_ws(s: Seq<char>) -> Seq<Seq<char>> {
    split_ws_from(s, 0)
}

/// The words of `parts` joined with single spaces, from position `i` on.
pub open spec fn join_ws_from(parts: Seq<Seq<char>>, i: nat) -> Seq<char>
    decreases parts.len() - i,
{
    if i >= parts.len() {
        Seq::empty()
    } else if i == parts.len() - 1 {
        parts[i as int]
    } else {
        parts[i as int] + seq![' '] + join_ws_from(parts, i + 1)
    }
}

/// The words of `parts` joined with single spaces.
pub open spec fn spec_join_ws(parts: Seq<Seq<char>>) -> Seq<char> {
    join_ws_from(parts, 0)
}

/// The words of `parts` with every word equal to `w` removed.
pub open spec fn remove_word(parts: Seq<Seq<char>>, w: Seq<char>) -> Seq<Seq<char>>
    decreases parts.len(),
{
    if parts.len() == 0 {
        Seq::empty()
    } else if parts[0] == w {
        remove_word(parts.drop_first(), w)
    } else {
        seq![parts[0]] + remove_word(parts.drop_first(), w)
    }
}

fn next_word_start_exec(s: &str, i: usize) -> (r: usize)
    requires
        i <= s@.len() <= usize::MAX,
    ensures
        r == next_word_start(s@, i as nat),
        i <= r <= s@.len(),
    decreases s@.len() - i,
{
    proof {
        lemma_next_word_start_bounds(s@, i as nat);
    }
    let n = s.unicode_len();
    if i < n && is_space(s.get_char(i)) {
        next_word_start_exec(s, i + 1)
    } else {
        i
    }
}

fn word_end_exec(s: &str, i: usize) -> (r: usize)
    requires
        i <= s@.len() <= usize::MAX,
    ensures
        r == word_end(s@, i as nat),
        i <= r <= s@.len(),
    decreases s@.len() - i,
{
    proof {
        lemma_word_end_bounds(s@, i as nat);
    }
    let n = s.unicode_len();
    if i < n && !is_space(s.get_char(i)) {
        word_end_exec(s, i + 1)
    } else {
        i
    }
}

/// Splits a string into its whitespace-separated words.
pub fn split_ws(s: &str) -> (r: Vec<String>)
    ensures
        r.deep_view() == spec_split_ws(s@),
{
    let n = s.unicode_len();
    let mut out: Vec<String> = Vec::new();
    let mut i: usize = 0;
    proof {
        assert(out.deep_view() =~= Seq::<Seq<char>>::empty());
        assert(out.deep_view() + split_ws_from(s@, 0) =~= split_ws_from(s@, 0));
    }
    loop
        invariant
            i <= n,
            n == s@.len() <= usize::MAX,
            out.deep_view() + split_ws_from(s@, i as nat) == spec_split_ws(s@),
        decreases n - i,
    {
        let j = next_word_start_exec(s, i);
        if j >= n {
            proof {
                assert(split_ws_from(s@, i as nat) =~= Seq::<Seq<char>>::empty());
                assert(out.deep_view() + Seq::<Seq<char>>::empty() =~= out.deep_view());
            }
            return out;
        }
        let e = word_end_exec(s, j);
        proof {
            lemma_next_word_start_nonspace(s@, i as nat);
            assert(!is_space_char(s@[j as int]));
            assert(word_end(s@, j as nat) == word_end(s@, (j + 1) as nat));
            lemma_word_end_bounds(s@, (j + 1) as nat);
        }
        let ghost pre = out.deep_view();
        let ghost wv = s@.subrange(j as int, e as int);
        out.push(s.substring_char(j, e).to_owned());
        proof {
            assert(out.deep_view() =~= pre.push(wv));
            assert(pre.push(wv) + split_ws_from(s@, e as nat) =~= pre + (seq![wv] + split_ws_from(
                s@,
                e as nat,
            )));
        }
        i = e;
    }
}

/// Joins words with single spaces, starting at position `i`.
pub fn join_ws(parts: &Vec<String>, i: usize) -> (r: String)
    requires
        i <= parts@.len(),
    ensures
        r@ == join_ws_from(parts.deep_view(), i as nat),
    decreases parts@.len() - i,
{
    if i >= parts.len() {
        let r = String::new();
        proof {
            assert(r@ =~= Seq::<char>::empty());
        }
        r
    } else if i == parts.len() - 1 {
        parts[i].clone()
    } else {
        let mut r = parts[i].clone();
        r.append(" ");
        let rest = join_ws(parts, i + 1);
        r.append(rest.as_str());
        proof {
            assert(" "@ =~= seq![' ']) by {
                reveal_strlit(" ");
            }
            assert(r@ =~= parts.deep_view()[i as int] + seq![' '] + join_ws_from(
                parts.deep_view(),
                (i + 1) as nat,
            ));
        }
        r
    }
}

// ---------------------------------------------------------------------------
// Membership
// ---------------------------------------------------------------------------

/// Whether any string of `v` has the content of `x`.
pub fn vec_contains_str(v: &Vec<String>, x: &str) -> (r: bool)
    ensures
        r == v.deep_view().contains(x@),
{
    let ghost dv = v.deep_view();
    let mut k: usize = 0;
    while k < v.len()
        invariant
            k <= v.len(),
            dv == v.deep_view(),
            forall|j: int| 0 <= j < k ==> dv[j] != x@,
        decreases v.len() - k,
    {
        if str_eq(v[k].as_str(), x) {
            proof {
                assert(dv.contains(x@)) by {
                    assert(0 <= k < dv.len() && dv[k as int] == x@);
                }
            }
            return true;
        }
        k = k + 1;
    }
    proof {
        if dv.contains(x@) {
            let j = choose|j: int| 0 <= j < dv.len() && dv[j] == x@;
            assert(false);
        }
    }
    false
}

/// Whether `v` holds the value `x`.
pub fn vec_contains_u64(v: &Vec<u64>, x: u64) -> (r: bool)
    ensures
        r == v@.contains(x),
{
    let mut k: usize = 0;
    while k < v.len()
        invariant
            k <= v.len(),
            forall|j: int| 0 <= j < k ==> v@[j] != x,
        decreases v.len() - k,
    {
        if v[k] == x {
            proof {
                assert(v@.contains(x)) by {
                    assert(0 <= k < v@.len() && v@[k as int] == x);
                }
            }
            return true;
        }
        k = k + 1;
    }
    proof {
        if v@.contains(x) {
            let j = choose|j: int| 0 <= j < v@.len() && v@[j] == x;
            assert(false);
        }
    }
    false
}

} // verus!
