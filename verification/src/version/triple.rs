//! Parsing of version strings into `(major, minor, patch)` triples, shared by
//! the Node, Python and Rust grammars.

use vstd::prelude::*;
use crate::text::{
    find_spec, parse_u32_spec, is_digit_char, str_find_char, parse_u32_str, char_is_digit,
};

verus! {

/// The longest all-digit prefix of `s`.
pub open spec fn digit_prefix(s: Seq<char>) -> Seq<char>
    decreases s.len(),
{
    if s.len() > 0 && is_digit_char(s[0]) {
        seq![s[0]] + digit_prefix(s.drop_first())
    } else {
        Seq::empty()
    }
}

proof fn lemma_digit_prefix_take(s: Seq<char>, k: int)
    requires
        0 <= k <= s.len(),
        forall|j: int| 0 <= j < k ==> is_digit_char(s[j]),
        k == s.len() || !is_digit_char(s[k]),
    ensures
        digit_prefix(s) == s.take(k),
    decreases k,
{
    if k == 0 {
        assert(s.take(0) =~= Seq::<char>::empty());
    } else {
        let t = s.drop_first();
        lemma_digit_prefix_take(t, k - 1);
        assert(digit_prefix(s) == seq![s[0]] + t.take(k - 1));
        assert(seq![s[0]] + t.take(k - 1) =~= s.take(k));
    }
}

/// Strict triple: exactly the `major.minor.patch` reading used by the Node
/// and Rust grammars. At least three dot-separated components must be
/// present; the patch component is cut at the first `-` (pre-release tag).
pub open spec fn strict_triple_spec(s: Seq<char>) -> Option<(u32, u32, u32)> {
    match find_spec(s, '.') {
        None => None,
        Some(i1) => {
            let p0 = s.take(i1);
            let rest1 = s.skip(i1 + 1);
            match find_spec(rest1, '.') {
                None => None,
                Some(i2) => {
                    let p1 = rest1.take(i2);
                    let rest2 = rest1.skip(i2 + 1);
                    let p2full = match find_spec(rest2, '.') {
                        Some(i3) => rest2.take(i3),
                        None => rest2,
                    };
                    let p2 = match find_spec(p2full, '-') {
                        Some(k) => p2full.take(k),
                        None => p2full,
                    };
                    match (parse_u32_spec(p0), parse_u32_spec(p1), parse_u32_spec(p2)) {
                        (Some(a), Some(b), Some(c)) => Some((a, b, c)),
                        _ => None,
                    }
                },
            }
        },
    }
}

/// Loose triple: the Python reading. One to three dot-separated components;
/// missing minor and patch default to zero; the patch is the numeric value of
/// the component's longest digit prefix, defaulting to zero.
pub open spec fn loose_triple_spec(s: Seq<char>) -> Option<(u32, u32, u32)> {
    match find_spec(s, '.') {
        None => match parse_u32_spec(s) {
            Some(a) => Some((a, 0u32, 0u32)),
            None => None,
        },
        Some(i1) => {
            let p0 = s.take(i1);
            let rest1 = s.skip(i1 + 1);
            match find_spec(rest1, '.') {
                None => match (parse_u32_spec(p0), parse_u32_spec(rest1)) {
                    (Some(a), Some(b)) => Some((a, b, 0u32)),
                    _ => None,
                },
                Some(i2) => {
                    let p1 = rest1.take(i2);
                    let rest2 = rest1.skip(i2 + 1);
                    let p2full = match find_spec(rest2, '.') {
                        Some(i3) => rest2.take(i3),
                        None => rest2,
                    };
                    let patch = match parse_u32_spec(digit_prefix(p2full)) {
                        Some(c) => c,
                        None => 0u32,
                    };
                    match (parse_u32_spec(p0), parse_u32_spec(p1)) {
                        (Some(a), Some(b)) => Some((a, b, patch)),
                        _ => None,
                    }
                },
            }
        },
    }
}

/// Lexicographic order on triples, matching how Rust orders tuples.
pub open spec fn triple_lt(a: (u32, u32, u32), b: (u32, u32, u32)) -> bool {
    a.0 < b.0 || (a.0 == b.0 && (a.1 < b.1 || (a.1 == b.1 && a.2 < b.2)))
}

/// `a >= b` in lexicographic triple order.
pub open spec fn triple_ge(a: (u32, u32, u32), b: (u32, u32, u32)) -> bool {
    !triple_lt(a, b)
}

/// Caret compatibility: same major, and `(minor, patch)` at least the
/// required one.
pub open spec fn caret_match(v: (u32, u32, u32), r: (u32, u32, u32)) -> bool {
    v.0 == r.0 && (v.1 > r.1 || (v.1 == r.1 && v.2 >= r.2))
}

/// Tilde compatibility: same major and minor, patch at least the required
/// one.
pub open spec fn tilde_match(v: (u32, u32, u32), r: (u32, u32, u32)) -> bool {
    v.0 == r.0 && v.1 == r.1 && v.2 >= r.2
}

/// Longest all-digit prefix of `s`, as a borrowed slice.
pub fn digit_prefix_of(s: &str) -> (r: &str)
    ensures
        r@ == digit_prefix(s@),
{
    let n = s.unicode_len();
    let mut k: usize = 0;
    loop
        invariant
            k <= n,
            n == s@.len(),
            forall|j: int| 0 <= j < k ==> is_digit_char(s@[j]),
        ensures
            k <= n,
            n == s@.len(),
            forall|j: int| 0 <= j < k ==> is_digit_char(s@[j]),
            k == n || !is_digit_char(s@[k as int]),
        decreases n - k,
    {
        if k < n {
            if char_is_digit(s.get_char(k)) {
                k = k + 1;
            } else {
                break;
            }
        } else {
            break;
        }
    }
    proof {
        lemma_digit_prefix_take(s@, k as int);
    }
    s.substring_char(0, k)
}

/// Parse `major.minor.patch` strictly, as the Node and Rust grammars read it.
pub fn parse_strict_triple(s: &str) -> (r: Option<(u32, u32, u32)>)
    ensures
        r == strict_triple_spec(s@),
{
    let n = s.unicode_len();
    let i1 = match str_find_char(s, '.') {
        Some(i) => i,
        None => {
            return None;
        },
    };
    proof {
        crate::text::lemma_find_spec(s@, '.');
    }
    let p0 = s.substring_char(0, i1);
    let rest1 = s.substring_char(i1 + 1, n);
    proof {
        assert(p0@ =~= s@.take(i1 as int));
        assert(rest1@ =~= s@.skip(i1 + 1));
    }
    let n1 = rest1.unicode_len();
    let i2 = match str_find_char(rest1, '.') {
        Some(i) => i,
        None => {
            return None;
        },
    };
    proof {
        crate::text::lemma_find_spec(rest1@, '.');
    }
    let p1 = rest1.substring_char(0, i2);
    let rest2 = rest1.substring_char(i2 + 1, n1);
    proof {
        assert(p1@ =~= rest1@.take(i2 as int));
        assert(rest2@ =~= rest1@.skip(i2 + 1));
    }
    let n2 = rest2.unicode_len();
    let p2full = match str_find_char(rest2, '.') {
        Some(i3) => {
            proof {
                crate::text::lemma_find_spec(rest2@, '.');
            }
            let cut = rest2.substring_char(0, i3);
            proof {
                assert(cut@ =~= rest2@.take(i3 as int));
            }
            cut
        },
        None => rest2,
    };
    let n2f = p2full.unicode_len();
    let p2 = match str_find_char(p2full, '-') {
        Some(k) => {
            proof {
                crate::text::lemma_find_spec(p2full@, '-');
            }
            let cut = p2full.substring_char(0, k);
            proof {
                assert(cut@ =~= p2full@.take(k as int));
            }
            cut
        },
        None => p2full,
    };
    let a = match parse_u32_str(p0) {
        Some(a) => a,
        None => {
            return None;
        },
    };
    let b = match parse_u32_str(p1) {
        Some(b) => b,
        None => {
            return None;
        },
    };
    let c = match parse_u32_str(p2) {
        Some(c) => c,
        None => {
            return None;
        },
    };
    Some((a, b, c))
}

/// Parse one to three dot-separated components, as the Python grammar reads
/// them.
pub fn parse_loose_triple(s: &str) -> (r: Option<(u32, u32, u32)>)
    ensures
        r == loose_triple_spec(s@),
{
    let n = s.unicode_len();
    let i1 = match str_find_char(s, '.') {
        Some(i) => i,
        None => {
            return match parse_u32_str(s) {
                Some(a) => Some((a, 0u32, 0u32)),
                None => None,
            };
        },
    };
    proof {
        crate::text::lemma_find_spec(s@, '.');
    }
    let p0 = s.substring_char(0, i1);
    let rest1 = s.substring_char(i1 + 1, n);
    proof {
        assert(p0@ =~= s@.take(i1 as int));
        assert(rest1@ =~= s@.skip(i1 + 1));
    }
    let n1 = rest1.unicode_len();
    let i2 = match str_find_char(rest1, '.') {
        Some(i) => i,
        None => {
            let a = match parse_u32_str(p0) {
                Some(a) => a,
                None => {
                    return None;
                },
            };
            let b = match parse_u32_str(rest1) {
                Some(b) => b,
                None => {
                    return None;
                },
            };
            return Some((a, b, 0u32));
        },
    };
    proof {
        crate::text::lemma_find_spec(rest1@, '.');
    }
    let p1 = rest1.substring_char(0, i2);
    let rest2 = rest1.substring_char(i2 + 1, n1);
    proof {
        assert(p1@ =~= rest1@.take(i2 as int));
        assert(rest2@ =~= rest1@.skip(i2 + 1));
    }
    let n2 = rest2.unicode_len();
    let p2full = match str_find_char(rest2, '.') {
        Some(i3) => {
            proof {
                crate::text::lemma_find_spec(rest2@, '.');
            }
            let cut = rest2.substring_char(0, i3);
            proof {
                assert(cut@ =~= rest2@.take(i3 as int));
            }
            cut
        },
        None => rest2,
    };
    let patch = match parse_u32_str(digit_prefix_of(p2full)) {
        Some(c) => c,
        None => 0u32,
    };
    let a = match parse_u32_str(p0) {
        Some(a) => a,
        None => {
            return None;
        },
    };
    let b = match parse_u32_str(p1) {
        Some(b) => b,
        None => {
            return None;
        },
    };
    Some((a, b, patch))
}

/// `a < b` in lexicographic triple order.
pub fn triple_lt_exec(a: (u32, u32, u32), b: (u32, u32, u32)) -> (r: bool)
    ensures
        r == triple_lt(a, b),
{
    a.0 < b.0 || (a.0 == b.0 && (a.1 < b.1 || (a.1 == b.1 && a.2 < b.2)))
}

/// Caret compatibility check.
pub fn caret_match_exec(v: (u32, u32, u32), r: (u32, u32, u32)) -> (res: bool)
    ensures
        res == caret_match(v, r),
{
    v.0 == r.0 && (v.1 > r.1 || (v.1 == r.1 && v.2 >= r.2))
}

/// Tilde compatibility check.
pub fn tilde_match_exec(v: (u32, u32, u32), r: (u32, u32, u32)) -> (res: bool)
    ensures
        res == tilde_match(v, r),
{
    v.0 == r.0 && v.1 == r.1 && v.2 >= r.2
}

} // verus!
