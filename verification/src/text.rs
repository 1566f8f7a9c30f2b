//! Verified text utilities: whitespace trimming, digit parsing, character
//! search and lexicographic comparison over `Seq<char>` views.

use vstd::prelude::*;

verus! {

/// The whitespace characters recognized when trimming version strings and
/// list entries.
pub open spec fn is_ws_char(c: char) -> bool {
    c == ' ' || c == '\t' || c == '\r' || c == '\n'
}

/// ASCII decimal digit.
pub open spec fn is_digit_char(c: char) -> bool {
    48 <= c as u32 && c as u32 <= 57
}

/// Numeric value of an ASCII decimal digit.
pub open spec fn digit_val(c: char) -> nat {
    (c as u32 - 48) as nat
}

/// `s` with leading whitespace removed.
pub open spec fn trim_front_spec(s: Seq<char>) -> Seq<char>
    decreases s.len(),
{
    if s.len() > 0 && is_ws_char(s[0]) {
        trim_front_spec(s.drop_first())
    } else {
        s
    }
}

/// `s` with trailing whitespace removed.
pub open spec fn trim_back_spec(s: Seq<char>) -> Seq<char>
    decreases s.len(),
{
    if s.len() > 0 && is_ws_char(s.last()) {
        trim_back_spec(s.drop_last())
    } else {
        s
    }
}

/// `s` with both leading and trailing whitespace removed.
pub open spec fn trim_spec(s: Seq<char>) -> Seq<char> {
    trim_back_spec(trim_front_spec(s))
}

proof fn lemma_trim_front_skip(s: Seq<char>, k: int)
    requires
        0 <= k <= s.len(),
        forall|j: int| 0 <= j < k ==> is_ws_char(s[j]),
        k == s.len() || !is_ws_char(s[k]),
    ensures
        trim_front_spec(s) == s.skip(k),
    decreases k,
{
    if k == 0 {
        assert(s.skip(0) =~= s);
        if s.len() > 0 && is_ws_char(s[0]) {
            assert(false);
        }
    } else {
        assert(is_ws_char(s[0]));
        let t = s.drop_first();
        assert(t =~= s.skip(1));
        lemma_trim_front_skip(t, k - 1);
        assert(t.skip(k - 1) =~= s.skip(k));
    }
}

proof fn lemma_trim_back_take(s: Seq<char>, k: int)
    requires
        0 <= k <= s.len(),
        forall|j: int| k <= j < s.len() ==> is_ws_char(s[j]),
        k == 0 || !is_ws_char(s[k - 1]),
    ensures
        trim_back_spec(s) == s.take(k),
    decreases s.len() - k,
{
    if k == s.len() {
        assert(s.take(k) =~= s);
        if s.len() > 0 && is_ws_char(s.last()) {
            assert(false);
        }
    } else {
        assert(is_ws_char(s.last()));
        let t = s.drop_last();
        assert(t =~= s.take(s.len() - 1));
        lemma_trim_back_take(t, k);
        assert(t.take(k) =~= s.take(k));
    }
}

/// Whitespace test on a single character.
pub fn char_is_ws(c: char) -> (r: bool)
    ensures
        r == is_ws_char(c),
{
    c == ' ' || c == '\t' || c == '\r' || c == '\n'
}

/// ASCII digit test on a single character.
pub fn char_is_digit(c: char) -> (r: bool)
    ensures
        r == is_digit_char(c),
{
    let u = c as u32;
    48 <= u && u <= 57
}

/// Remove leading and trailing whitespace.
pub fn trim_of(s: &str) -> (r: String)
    ensures
        r@ == trim_spec(s@),
{
    let n = s.unicode_len();
    let mut lo: usize = 0;
    loop
        invariant
            lo <= n,
            n == s@.len(),
            forall|j: int| 0 <= j < lo ==> is_ws_char(s@[j]),
        ensures
            lo <= n,
            n == s@.len(),
            forall|j: int| 0 <= j < lo ==> is_ws_char(s@[j]),
            lo == n || !is_ws_char(s@[lo as int]),
        decreases n - lo,
    {
        if lo < n {
            let c = s.get_char(lo);
            if char_is_ws(c) {
                lo = lo + 1;
            } else {
                break;
            }
        } else {
            break;
        }
    }
    let mut hi: usize = n;
    loop
        invariant
            lo <= hi <= n,
            n == s@.len(),
            forall|j: int| 0 <= j < lo ==> is_ws_char(s@[j]),
            lo == n || !is_ws_char(s@[lo as int]),
            forall|j: int| hi <= j < n ==> is_ws_char(s@[j]),
        ensures
            lo <= hi <= n,
            n == s@.len(),
            forall|j: int| hi <= j < n ==> is_ws_char(s@[j]),
            hi == lo || !is_ws_char(s@[hi - 1]),
        decreases hi,
    {
        if hi > lo {
            let c = s.get_char(hi - 1);
            if char_is_ws(c) {
                hi = hi - 1;
            } else {
                break;
            }
        } else {
            break;
        }
    }
    let piece = s.substring_char(lo, hi);
    proof {
        if lo == n {
            lemma_trim_front_skip(s@, lo as int);
            assert(trim_front_spec(s@) =~= Seq::<char>::empty());
            assert(trim_spec(s@) =~= Seq::<char>::empty());
            assert(piece@ =~= Seq::<char>::empty());
        } else {
            lemma_trim_front_skip(s@, lo as int);
            let t = s@.skip(lo as int);
            lemma_trim_back_take(t, hi - lo);
            assert(piece@ =~= t.take(hi - lo));
        }
    }
    piece.to_owned()
}

/// Character-for-character string equality.
pub fn str_eq_str(a: &str, b: &str) -> (r: bool)
    ensures
        r == (a@ == b@),
{
    let na = a.unicode_len();
    let nb = b.unicode_len();
    if na != nb {
        proof {
            if a@ == b@ {
                assert(a@.len() == b@.len());
            }
        }
        return false;
    }
    let mut i: usize = 0;
    loop
        invariant
            i <= na,
            na == a@.len(),
            na == b@.len(),
            forall|j: int| 0 <= j < i ==> a@[j] == b@[j],
        ensures
            i <= na,
            na == a@.len(),
            na == b@.len(),
            forall|j: int| 0 <= j < i ==> a@[j] == b@[j],
            i == na || a@[i as int] != b@[i as int],
        decreases na - i,
    {
        if i < na {
            if a.get_char(i) != b.get_char(i) {
                break;
            }
            i = i + 1;
        } else {
            break;
        }
    }
    if i == na {
        proof {
            assert(a@ =~= b@);
        }
        true
    } else {
        proof {
            if a@ == b@ {
                assert(a@[i as int] == b@[i as int]);
            }
        }
        false
    }
}

/// Prefix test, stated over sequence views.
pub fn str_starts_with(s: &str, p: &str) -> (r: bool)
    ensures
        r == p@.is_prefix_of(s@),
{
    let ns = s.unicode_len();
    let np = p.unicode_len();
    if np > ns {
        return false;
    }
    let mut i: usize = 0;
    loop
        invariant
            i <= np,
            np <= ns,
            ns == s@.len(),
            np == p@.len(),
            forall|j: int| 0 <= j < i ==> s@[j] == p@[j],
        ensures
            i <= np,
            ns == s@.len(),
            np == p@.len(),
            forall|j: int| 0 <= j < i ==> s@[j] == p@[j],
            i == np || s@[i as int] != p@[i as int],
        decreases np - i,
    {
        if i < np {
            if s.get_char(i) != p.get_char(i) {
                break;
            }
            i = i + 1;
        } else {
            break;
        }
    }
    if i == np {
        proof {
            assert(p@ =~= s@.subrange(0, p@.len() as int));
        }
        true
    } else {
        proof {
            if p@.is_prefix_of(s@) {
                assert(p@[i as int] == s@.subrange(0, p@.len() as int)[i as int]);
            }
        }
        false
    }
}

/// No occurrence of `c` in `s` before index `i`.
pub open spec fn no_char_before(s: Seq<char>, c: char, i: int) -> bool {
    forall|j: int| 0 <= j < i ==> s[j] != c
}

/// Index of the first occurrence of `c` in `s`.
pub open spec fn find_spec(s: Seq<char>, c: char) -> Option<int>
    decreases s.len(),
{
    if s.len() == 0 {
        None
    } else if s[0] == c {
        Some(0)
    } else {
        match find_spec(s.drop_first(), c) {
            Some(i) => Some(i + 1),
            None => None,
        }
    }
}

/// `find_spec` returns the first index holding `c`, or `None` when `c` does
/// not occur.
pub proof fn lemma_find_spec(s: Seq<char>, c: char)
    ensures
        match find_spec(s, c) {
            Some(i) => 0 <= i < s.len() && s[i] == c && no_char_before(s, c, i),
            None => no_char_before(s, c, s.len() as int),
        },
    decreases s.len(),
{
    if s.len() == 0 {
    } else if s[0] == c {
    } else {
        lemma_find_spec(s.drop_first(), c);
        let t = s.drop_first();
        match find_spec(t, c) {
            Some(i) => {
                assert(s[i + 1] == t[i]);
                assert(forall|j: int| 1 <= j < i + 1 ==> s[j] == t[j - 1]);
            },
            None => {
                assert(forall|j: int| 1 <= j < s.len() ==> s[j] == t[j - 1]);
            },
        }
    }
}

/// The witness directions: an index with the first-occurrence property pins
/// `find_spec`, and absence pins `None`.
pub proof fn lemma_find_spec_unique(s: Seq<char>, c: char, i: int)
    requires
        0 <= i < s.len(),
        s[i] == c,
        no_char_before(s, c, i),
    ensures
        find_spec(s, c) == Some(i),
{
    lemma_find_spec(s, c);
    match find_spec(s, c) {
        Some(k) => {
            if k < i {
                assert(s[k] == c);
                assert(false);
            }
            if i < k {
                assert(false);
            }
        },
        None => {
            assert(s[i] == c);
            assert(false);
        },
    }
}

/// Absence of `c` pins `find_spec` to `None`.
pub proof fn lemma_find_spec_none(s: Seq<char>, c: char)
    requires
        no_char_before(s, c, s.len() as int),
    ensures
        find_spec(s, c) == None::<int>,
{
    lemma_find_spec(s, c);
    match find_spec(s, c) {
        Some(k) => {
            assert(s[k] == c);
            assert(false);
        },
        None => {},
    }
}

/// First occurrence of `c` in `s`, scanning left to right.
pub fn str_find_char(s: &str, c: char) -> (r: Option<usize>)
    ensures
        match r {
            Some(i) => find_spec(s@, c) == Some(i as int),
            None => find_spec(s@, c) == None::<int>,
        },
{
    let n = s.unicode_len();
    let mut i: usize = 0;
    loop
        invariant
            i <= n,
            n == s@.len(),
            no_char_before(s@, c, i as int),
        ensures
            i <= n,
            n == s@.len(),
            no_char_before(s@, c, i as int),
            i == n || s@[i as int] == c,
        decreases n - i,
    {
        if i < n {
            if s.get_char(i) == c {
                break;
            }
            i = i + 1;
        } else {
            break;
        }
    }
    if i == n {
        proof {
            lemma_find_spec_none(s@, c);
        }
        None
    } else {
        proof {
            lemma_find_spec_unique(s@, c, i as int);
        }
        Some(i)
    }
}

/// `s` with every leading occurrence of `c` removed.
pub open spec fn trim_char_front(s: Seq<char>, c: char) -> Seq<char>
    decreases s.len(),
{
    if s.len() > 0 && s[0] == c {
        trim_char_front(s.drop_first(), c)
    } else {
        s
    }
}

/// `s` with every trailing occurrence of `c` removed.
pub open spec fn trim_char_back(s: Seq<char>, c: char) -> Seq<char>
    decreases s.len(),
{
    if s.len() > 0 && s.last() == c {
        trim_char_back(s.drop_last(), c)
    } else {
        s
    }
}

/// `s` with every leading and trailing occurrence of `c` removed, as
/// `str::trim_matches` does for a single character.
pub open spec fn trim_char_spec(s: Seq<char>, c: char) -> Seq<char> {
    trim_char_back(trim_char_front(s, c), c)
}

proof fn lemma_trim_char_front_skip(s: Seq<char>, c: char, k: int)
    requires
        0 <= k <= s.len(),
        forall|j: int| 0 <= j < k ==> s[j] == c,
        k == s.len() || s[k] != c,
    ensures
        trim_char_front(s, c) == s.skip(k),
    decreases k,
{
    if k == 0 {
        assert(s.skip(0) =~= s);
        if s.len() > 0 && s[0] == c {
            assert(false);
        }
    } else {
        let t = s.drop_first();
        assert(t =~= s.skip(1));
        lemma_trim_char_front_skip(t, c, k - 1);
        assert(t.skip(k - 1) =~= s.skip(k));
    }
}

proof fn lemma_trim_char_back_take(s: Seq<char>, c: char, k: int)
    requires
        0 <= k <= s.len(),
        forall|j: int| k <= j < s.len() ==> s[j] == c,
        k == 0 || s[k - 1] != c,
    ensures
        trim_char_back(s, c) == s.take(k),
    decreases s.len() - k,
{
    if k == s.len() {
        assert(s.take(k) =~= s);
        if s.len() > 0 && s.last() == c {
            assert(false);
        }
    } else {
        let t = s.drop_last();
        assert(t =~= s.take(s.len() - 1));
        lemma_trim_char_back_take(t, c, k);
        assert(t.take(k) =~= s.take(k));
    }
}

/// Remove every leading and trailing occurrence of `c`.
pub fn trim_char_of(s: &str, c: char) -> (r: String)
    ensures
        r@ == trim_char_spec(s@, c),
{
    let n = s.unicode_len();
    let mut lo: usize = 0;
    loop
        invariant
            lo <= n,
            n == s@.len(),
            forall|j: int| 0 <= j < lo ==> s@[j] == c,
        ensures
            lo <= n,
            n == s@.len(),
            forall|j: int| 0 <= j < lo ==> s@[j] == c,
            lo == n || s@[lo as int] != c,
        decreases n - lo,
    {
        if lo < n {
            if s.get_char(lo) == c {
                lo = lo + 1;
            } else {
                break;
            }
        } else {
            break;
        }
    }
    let mut hi: usize = n;
    loop
        invariant
            lo <= hi <= n,
            n == s@.len(),
            forall|j: int| 0 <= j < lo ==> s@[j] == c,
            lo == n || s@[lo as int] != c,
            forall|j: int| hi <= j < n ==> s@[j] == c,
        ensures
            lo <= hi <= n,
            n == s@.len(),
            forall|j: int| hi <= j < n ==> s@[j] == c,
            hi == lo || s@[hi - 1] != c,
        decreases hi,
    {
        if hi > lo {
            if s.get_char(hi - 1) == c {
                hi = hi - 1;
            } else {
                break;
            }
        } else {
            break;
        }
    }
    let piece = s.substring_char(lo, hi);
    proof {
        if lo == n {
            lemma_trim_char_front_skip(s@, c, lo as int);
            assert(trim_char_front(s@, c) =~= Seq::<char>::empty());
            assert(trim_char_spec(s@, c) =~= Seq::<char>::empty());
            assert(piece@ =~= Seq::<char>::empty());
        } else {
            lemma_trim_char_front_skip(s@, c, lo as int);
            let t = s@.skip(lo as int);
            lemma_trim_char_back_take(t, c, hi - lo);
            assert(piece@ =~= t.take(hi - lo));
        }
    }
    piece.to_owned()
}

/// Remove every trailing occurrence of `c`, as `str::trim_end_matches`
/// does for a single character.
pub fn trim_char_end_of(s: &str, c: char) -> (r: String)
    ensures
        r@ == trim_char_back(s@, c),
{
    let n = s.unicode_len();
    let mut hi: usize = n;
    loop
        invariant
            hi <= n,
            n == s@.len(),
            forall|j: int| hi <= j < n ==> s@[j] == c,
        ensures
            hi <= n,
            n == s@.len(),
            forall|j: int| hi <= j < n ==> s@[j] == c,
            hi == 0 || s@[hi - 1] != c,
        decreases hi,
    {
        if hi > 0 {
            if s.get_char(hi - 1) == c {
                hi = hi - 1;
            } else {
                break;
            }
        } else {
            break;
        }
    }
    let piece = s.substring_char(0, hi);
    proof {
        lemma_trim_char_back_take(s@, c, hi as int);
        assert(piece@ =~= s@.take(hi as int));
    }
    piece.to_owned()
}

/// No occurrence of the pair `c1 c2` starts in `s` before index `i`.
pub open spec fn no_pair_before(s: Seq<char>, c1: char, c2: char, i: int) -> bool {
    forall|j: int| #![trigger s[j]] 0 <= j < i && j + 1 < s.len() ==> !(s[j] == c1 && s[j + 1] == c2)
}

/// Index of the first occurrence of the two-character sequence `c1 c2`.
pub open spec fn find_pair_spec(s: Seq<char>, c1: char, c2: char) -> Option<int>
    decreases s.len(),
{
    if s.len() < 2 {
        None
    } else if s[0] == c1 && s[1] == c2 {
        Some(0)
    } else {
        match find_pair_spec(s.drop_first(), c1, c2) {
            Some(i) => Some(i + 1),
            None => None,
        }
    }
}

/// `find_pair_spec` returns the first index where the pair starts, or
/// `None` when the pair does not occur.
pub proof fn lemma_find_pair_spec(s: Seq<char>, c1: char, c2: char)
    ensures
        match find_pair_spec(s, c1, c2) {
            Some(i) => 0 <= i && i + 1 < s.len() && s[i] == c1 && s[i + 1] == c2 && no_pair_before(
                s,
                c1,
                c2,
                i,
            ),
            None => no_pair_before(s, c1, c2, s.len() as int),
        },
    decreases s.len(),
{
    if s.len() < 2 {
    } else if s[0] == c1 && s[1] == c2 {
    } else {
        lemma_find_pair_spec(s.drop_first(), c1, c2);
        let t = s.drop_first();
        assert(forall|j: int| 0 <= j < t.len() ==> t[j] == s[j + 1]);
        match find_pair_spec(t, c1, c2) {
            Some(i) => {
                assert(s[i + 1] == t[i]);
                assert(s[i + 2] == t[i + 1]);
                assert forall|j: int|
                    #![trigger s[j]]
                    0 <= j < i + 1 && j + 1 < s.len() implies !(s[j] == c1 && s[j + 1] == c2) by {
                    if j >= 1 {
                        assert(t[j - 1] == s[j]);
                        assert(t[j] == s[j + 1]);
                    }
                }
            },
            None => {
                assert forall|j: int|
                    #![trigger s[j]]
                    0 <= j < s.len() && j + 1 < s.len() implies !(s[j] == c1 && s[j + 1] == c2) by {
                    if j >= 1 {
                        assert(t[j - 1] == s[j]);
                        assert(t[j] == s[j + 1]);
                    }
                }
            },
        }
    }
}

/// First start index of the two-character sequence `c1 c2` in `s`.
pub fn str_find_pair(s: &str, c1: char, c2: char) -> (r: Option<usize>)
    ensures
        match r {
            Some(i) => find_pair_spec(s@, c1, c2) == Some(i as int),
            None => find_pair_spec(s@, c1, c2) == None::<int>,
        },
{
    let n = s.unicode_len();
    if n < 2 {
        proof {
            lemma_find_pair_none(s@, c1, c2);
        }
        return None;
    }
    let mut i: usize = 0;
    loop
        invariant
            i + 1 <= n,
            n == s@.len(),
            n >= 2,
            no_pair_before(s@, c1, c2, i as int),
        ensures
            i + 1 <= n,
            n == s@.len(),
            no_pair_before(s@, c1, c2, i as int),
            i + 1 < n ==> s@[i as int] == c1 && s@[i + 1] == c2,
            i + 1 == n ==> no_pair_before(s@, c1, c2, n as int),
        decreases n - i,
    {
        if i + 1 < n {
            if s.get_char(i) == c1 && s.get_char(i + 1) == c2 {
                break;
            }
            i = i + 1;
        } else {
            proof {
                assert forall|j: int| #![trigger s@[j]] 0 <= j < n && j + 1 < n implies !(s@[j]
                    == c1 && s@[j + 1] == c2) by {
                    assert(j < i || j >= i);
                }
            }
            break;
        }
    }
    if i + 1 < n {
        proof {
            lemma_find_pair_unique(s@, c1, c2, i as int);
        }
        Some(i)
    } else {
        proof {
            lemma_find_pair_none(s@, c1, c2);
        }
        None
    }
}

proof fn lemma_find_pair_unique(s: Seq<char>, c1: char, c2: char, i: int)
    requires
        0 <= i,
        i + 1 < s.len(),
        s[i] == c1,
        s[i + 1] == c2,
        no_pair_before(s, c1, c2, i),
    ensures
        find_pair_spec(s, c1, c2) == Some(i),
{
    lemma_find_pair_spec(s, c1, c2);
    match find_pair_spec(s, c1, c2) {
        Some(k) => {
            if k < i {
                assert(false);
            }
            if i < k {
                assert(false);
            }
        },
        None => {
            assert(false);
        },
    }
}

proof fn lemma_find_pair_none(s: Seq<char>, c1: char, c2: char)
    requires
        no_pair_before(s, c1, c2, s.len() as int),
    ensures
        find_pair_spec(s, c1, c2) == None::<int>,
{
    lemma_find_pair_spec(s, c1, c2);
    match find_pair_spec(s, c1, c2) {
        Some(k) => {
            assert(false);
        },
        None => {},
    }
}

/// A line piece with a trailing carriage return removed.
pub open spec fn strip_cr(s: Seq<char>) -> Seq<char> {
    if s.len() > 0 && s.last() == '\r' {
        s.drop_last()
    } else {
        s
    }
}

/// The lines of `s`, split on newlines, each with a trailing carriage
/// return removed; a trailing newline yields no final empty line.
pub open spec fn lines_spec(s: Seq<char>) -> Seq<Seq<char>>
    decreases s.len(),
    via lines_spec_decreases
{
    if s.len() == 0 {
        Seq::empty()
    } else {
        match find_spec(s, '\n') {
            None => seq![strip_cr(s)],
            Some(i) => seq![strip_cr(s.take(i))] + lines_spec(s.skip(i + 1)),
        }
    }
}

#[via_fn]
proof fn lines_spec_decreases(s: Seq<char>) {
    lemma_find_spec(s, '\n');
}

/// Split `s` into lines as `str::lines` does.
pub fn str_lines(s: &str) -> (r: Vec<String>)
    ensures
        r@.map_values(|x: String| x@) == lines_spec(s@),
{
    let ghost f = |x: String| x@;
    let mut out: Vec<String> = Vec::new();
    let mut rest: &str = s;
    proof {
        assert(out@.map_values(f) =~= Seq::<Seq<char>>::empty());
    }
    loop
        invariant
            f == (|x: String| x@),
            out@.map_values(f) + lines_spec(rest@) == lines_spec(s@),
        ensures
            rest@.len() == 0,
            out@.map_values(f) + lines_spec(rest@) == lines_spec(s@),
        decreases rest@.len(),
    {
        let n = rest.unicode_len();
        if n == 0 {
            break;
        }
        match str_find_char(rest, '\n') {
            Some(i) => {
                proof {
                    lemma_find_spec(rest@, '\n');
                }
                let piece = rest.substring_char(0, i);
                proof {
                    assert(piece@ =~= rest@.take(i as int));
                }
                let pn = piece.unicode_len();
                let line = if pn > 0 && piece.get_char(pn - 1) == '\r' {
                    let cut = piece.substring_char(0, pn - 1);
                    proof {
                        assert(cut@ =~= piece@.drop_last());
                    }
                    cut
                } else {
                    piece
                };
                let ghost prev = out@.map_values(f);
                out.push(line.to_owned());
                let next = rest.substring_char(i + 1, n);
                proof {
                    assert(next@ =~= rest@.skip(i + 1));
                    assert(out@.map_values(f) =~= prev.push(strip_cr(rest@.take(i as int))));
                    assert(prev.push(strip_cr(rest@.take(i as int))) + lines_spec(next@)
                        =~= prev + lines_spec(rest@));
                }
                rest = next;
            },
            None => {
                proof {
                    lemma_find_spec(rest@, '\n');
                }
                let pn = rest.unicode_len();
                let line = if pn > 0 && rest.get_char(pn - 1) == '\r' {
                    let cut = rest.substring_char(0, pn - 1);
                    proof {
                        assert(cut@ =~= rest@.drop_last());
                    }
                    cut
                } else {
                    rest
                };
                let ghost prev = out@.map_values(f);
                out.push(line.to_owned());
                let next = rest.substring_char(n, n);
                proof {
                    assert(next@ =~= Seq::<char>::empty());
                    assert(out@.map_values(f) =~= prev.push(strip_cr(rest@)));
                    assert(lines_spec(rest@) =~= seq![strip_cr(rest@)]);
                    assert(prev.push(strip_cr(rest@)) + lines_spec(next@) =~= prev + lines_spec(
                        rest@,
                    ));
                }
                rest = next;
            },
        }
    }
    proof {
        assert(lines_spec(rest@) =~= Seq::<Seq<char>>::empty());
        assert(out@.map_values(f) =~= out@.map_values(f) + lines_spec(rest@));
    }
    out
}

/// Lexicographic order on character sequences by code point, the order
/// `str` comparison uses.
pub open spec fn lex_le(a: Seq<char>, b: Seq<char>) -> bool
    decreases a.len(),
{
    if a.len() == 0 {
        true
    } else if b.len() == 0 {
        false
    } else if (a[0] as u32) < (b[0] as u32) {
        true
    } else if (a[0] as u32) > (b[0] as u32) {
        false
    } else {
        lex_le(a.drop_first(), b.drop_first())
    }
}

/// `lex_le` is total.
pub proof fn lemma_lex_le_total(a: Seq<char>, b: Seq<char>)
    ensures
        lex_le(a, b) || lex_le(b, a),
    decreases a.len(),
{
    if a.len() == 0 || b.len() == 0 {
    } else if (a[0] as u32) == (b[0] as u32) {
        lemma_lex_le_total(a.drop_first(), b.drop_first());
    }
}

/// `lex_le` is antisymmetric.
pub proof fn lemma_lex_le_antisym(a: Seq<char>, b: Seq<char>)
    requires
        lex_le(a, b),
        lex_le(b, a),
    ensures
        a == b,
    decreases a.len(),
{
    if a.len() == 0 {
        assert(b.len() == 0);
        assert(a =~= b);
    } else {
        assert(b.len() > 0);
        if (a[0] as u32) < (b[0] as u32) {
            assert(!lex_le(b, a));
        } else if (a[0] as u32) > (b[0] as u32) {
            assert(!lex_le(a, b));
        } else {
            assert(a[0] == b[0]) by {
                vstd::utf8::char_u32_cast(a[0], a[0] as u32);
                vstd::utf8::char_u32_cast(b[0], b[0] as u32);
            }
            lemma_lex_le_antisym(a.drop_first(), b.drop_first());
            assert(a.drop_first().len() == b.drop_first().len());
            assert(a.len() == b.len());
            assert forall|i: int| 0 <= i < a.len() implies a[i] == b[i] by {
                if i > 0 {
                    assert(a[i] == a.drop_first()[i - 1]);
                    assert(b[i] == b.drop_first()[i - 1]);
                }
            }
            assert(a =~= b);
        }
    }
}

/// `lex_le` is transitive.
pub proof fn lemma_lex_le_trans(a: Seq<char>, b: Seq<char>, c: Seq<char>)
    requires
        lex_le(a, b),
        lex_le(b, c),
    ensures
        lex_le(a, c),
    decreases a.len(),
{
    if a.len() == 0 {
    } else if b.len() == 0 {
    } else if c.len() == 0 {
    } else {
        if (a[0] as u32) == (b[0] as u32) && (b[0] as u32) == (c[0] as u32) {
            lemma_lex_le_trans(a.drop_first(), b.drop_first(), c.drop_first());
        }
    }
}

/// Lexicographic comparison of two strings.
pub fn str_lex_le(a: &str, b: &str) -> (r: bool)
    ensures
        r == lex_le(a@, b@),
{
    let na = a.unicode_len();
    let nb = b.unicode_len();
    let mut i: usize = 0;
    proof {
        assert(a@.skip(0) =~= a@);
        assert(b@.skip(0) =~= b@);
    }
    loop
        invariant
            i <= na,
            i <= nb,
            na == a@.len(),
            nb == b@.len(),
            forall|j: int| 0 <= j < i ==> a@[j] == b@[j],
            lex_le(a@, b@) == lex_le(a@.skip(i as int), b@.skip(i as int)),
            lex_le(b@, a@) == lex_le(b@.skip(i as int), a@.skip(i as int)),
        ensures
            i <= na,
            i <= nb,
            na == a@.len(),
            nb == b@.len(),
            lex_le(a@, b@) == lex_le(a@.skip(i as int), b@.skip(i as int)),
            i == na || i == nb || a@[i as int] != b@[i as int],
        decreases na - i,
    {
        if i < na && i < nb {
            let ca = a.get_char(i);
            let cb = b.get_char(i);
            if ca == cb {
                proof {
                    let sa = a@.skip(i as int);
                    let sb = b@.skip(i as int);
                    assert(sa.drop_first() =~= a@.skip(i + 1));
                    assert(sb.drop_first() =~= b@.skip(i + 1));
                    assert(sa[0] == a@[i as int] && sb[0] == b@[i as int]);
                }
                i = i + 1;
            } else {
                break;
            }
        } else {
            break;
        }
    }
    proof {
        let sa = a@.skip(i as int);
        let sb = b@.skip(i as int);
        assert(sa.len() == na - i && sb.len() == nb - i);
        if i < na && i < nb {
            assert(sa[0] == a@[i as int] && sb[0] == b@[i as int]);
        }
    }
    if i == na {
        true
    } else if i == nb {
        false
    } else {
        let ca = a.get_char(i);
        let cb = b.get_char(i);
        proof {
            if ca as u32 == cb as u32 {
                vstd::utf8::char_u32_cast(ca, ca as u32);
                vstd::utf8::char_u32_cast(cb, cb as u32);
                assert(ca == cb);
            }
        }
        (ca as u32) < (cb as u32)
    }
}

/// Every character of `s` is an ASCII digit.
pub open spec fn all_digits(s: Seq<char>) -> bool {
    forall|j: int| 0 <= j < s.len() ==> is_digit_char(s[j])
}

/// Value of a digit string read in base ten.
pub open spec fn digits_val(s: Seq<char>) -> nat
    decreases s.len(),
{
    if s.len() == 0 {
        0
    } else {
        digits_val(s.drop_last()) * 10 + digit_val(s.last())
    }
}

/// What `str::parse::<u32>` yields on a plain digit string: the base-ten
/// value when the string is non-empty, all digits, and within range.
pub open spec fn parse_u32_spec(s: Seq<char>) -> Option<u32> {
    if s.len() > 0 && all_digits(s) && digits_val(s) <= u32::MAX {
        Some(digits_val(s) as u32)
    } else {
        None
    }
}

proof fn lemma_digits_val_prefix_le(s: Seq<char>, k: int)
    requires
        0 <= k <= s.len(),
    ensures
        digits_val(s.take(k)) <= digits_val(s),
    decreases s.len() - k,
{
    if k == s.len() {
        assert(s.take(k) =~= s);
    } else {
        lemma_digits_val_prefix_le(s, k + 1);
        assert(s.take(k + 1).drop_last() =~= s.take(k));
        assert(digits_val(s.take(k + 1)) == digits_val(s.take(k)) * 10 + digit_val(s.take(k + 1).last()));
    }
}

/// Parse a non-empty ASCII digit string as a `u32`.
pub fn parse_u32_str(s: &str) -> (r: Option<u32>)
    ensures
        r == parse_u32_spec(s@),
{
    let n = s.unicode_len();
    if n == 0 {
        return None;
    }
    let mut i: usize = 0;
    let mut acc: u64 = 0;
    loop
        invariant
            i <= n,
            n == s@.len(),
            n > 0,
            all_digits(s@.take(i as int)),
            acc == digits_val(s@.take(i as int)),
            acc <= u32::MAX,
        ensures
            n == s@.len(),
            i == n,
            all_digits(s@.take(i as int)),
            acc == digits_val(s@.take(i as int)),
            acc <= u32::MAX,
        decreases n - i,
    {
        if i < n {
            let c = s.get_char(i);
            if !char_is_digit(c) {
                proof {
                    assert(!is_digit_char(s@[i as int]));
                }
                return None;
            }
            let d = (c as u32) - 48;
            let acc2 = acc * 10 + (d as u64);
            proof {
                assert(s@.take(i + 1).drop_last() =~= s@.take(i as int));
                assert(s@.take(i + 1).last() == s@[i as int]);
            }
            if acc2 > u32::MAX as u64 {
                proof {
                    lemma_digits_val_prefix_le(s@, i + 1);
                    assert(digits_val(s@.take(i + 1)) == acc2);
                }
                return None;
            }
            acc = acc2;
            i = i + 1;
        } else {
            break;
        }
    }
    proof {
        assert(s@.take(n as int) =~= s@);
    }
    Some(acc as u32)
}

} // verus!
