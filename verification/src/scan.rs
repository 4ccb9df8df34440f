//! Locating delimiters in a character sequence.
//!
//! The parser segments its input at the first occurrence of a delimiter:
//! the three-character scheme separator `"://"`, or a single character such
//! as `'/'`, `':'`, `'?'`, `'&'` or `'='`.  This module defines the first
//! occurrence as a recursive spec function, characterizes it by quantifiers,
//! and provides the executable searches.

use vstd::prelude::*;
use vstd::string::*;

verus! {

/// Index of the first occurrence of `c` in `s`, if any.
pub open spec fn find_ch(s: Seq<char>, c: char) -> Option<int>
    decreases s.len(),
{
    if s.len() == 0 {
        None
    } else if s[0] == c {
        Some(0)
    } else {
        match find_ch(s.subrange(1, s.len() as int), c) {
            None => None,
            Some(i) => Some(i + 1),
        }
    }
}

/// The scheme separator `"://"` stands at index `i` of `s`.
pub open spec fn sep_at(s: Seq<char>, i: int) -> bool {
    &&& 0 <= i
    &&& i + 3 <= s.len()
    &&& s[i] == ':'
    &&& s[i + 1] == '/'
    &&& s[i + 2] == '/'
}

/// Index of the first occurrence of the scheme separator `"://"` in `s`, if any.
pub open spec fn find_sep(s: Seq<char>) -> Option<int>
    decreases s.len(),
{
    if s.len() < 3 {
        None
    } else if s[0] == ':' && s[1] == '/' && s[2] == '/' {
        Some(0)
    } else {
        match find_sep(s.subrange(1, s.len() as int)) {
            None => None,
            Some(i) => Some(i + 1),
        }
    }
}

/// `find_ch` returns the least index holding `c`, or `None` when `c` is absent.
pub proof fn lemma_find_ch(s: Seq<char>, c: char)
    ensures
        match find_ch(s, c) {
            Some(i) => 0 <= i < s.len() && s[i] == c && (forall|j: int| 0 <= j < i ==> s[j] != c),
            None => forall|j: int| 0 <= j < s.len() ==> s[j] != c,
        },
    decreases s.len(),
{
    if s.len() == 0 {
    } else if s[0] == c {
    } else {
        let t = s.subrange(1, s.len() as int);
        lemma_find_ch(t, c);
        assert(forall|j: int| 0 <= j < t.len() ==> t[j] == s[j + 1]);
        match find_ch(t, c) {
            None => {
                assert forall|j: int| 0 <= j < s.len() implies s[j] != c by {
                    if 1 <= j {
                        assert(t[j - 1] == s[j]);
                    }
                }
            },
            Some(i) => {
                assert(s[i + 1] == t[i]);
                assert forall|j: int| 0 <= j < i + 1 implies s[j] != c by {
                    if 1 <= j {
                        assert(t[j - 1] == s[j]);
                    }
                }
            },
        }
    }
}

/// Converse direction: a least index with `c` determines `find_ch`.
pub proof fn lemma_find_ch_is(s: Seq<char>, c: char, k: int)
    requires
        0 <= k < s.len(),
        s[k] == c,
        forall|j: int| 0 <= j < k ==> s[j] != c,
    ensures
        find_ch(s, c) == Some(k),
{
    lemma_find_ch(s, c);
    if let Some(i) = find_ch(s, c) {
        if i < k {
            assert(s[i] != c);
        }
        if k < i {
            assert(s[k] != c);
        }
    } else {
        assert(s[k] != c);
    }
}

/// Converse direction: absence of `c` determines `find_ch`.
pub proof fn lemma_find_ch_none(s: Seq<char>, c: char)
    requires
        forall|j: int| 0 <= j < s.len() ==> s[j] != c,
    ensures
        find_ch(s, c) is None,
{
    lemma_find_ch(s, c);
    if let Some(i) = find_ch(s, c) {
        assert(s[i] != c);
    }
}

/// Searching a concatenation whose left part is free of `c` finds the
/// occurrence in the right part, shifted by the left part's length.
pub proof fn lemma_find_ch_concat(a: Seq<char>, b: Seq<char>, c: char)
    requires
        forall|j: int| 0 <= j < a.len() ==> a[j] != c,
    ensures
        find_ch(a + b, c) == match find_ch(b, c) {
            None => None::<int>,
            Some(i) => Some(a.len() + i),
        },
{
    lemma_find_ch(b, c);
    match find_ch(b, c) {
        None => {
            assert forall|j: int| 0 <= j < (a + b).len() implies (a + b)[j] != c by {
                if j < a.len() {
                    assert((a + b)[j] == a[j]);
                } else {
                    assert((a + b)[j] == b[j - a.len()]);
                }
            }
            lemma_find_ch_none(a + b, c);
        },
        Some(i) => {
            assert((a + b)[a.len() + i] == b[i]);
            assert forall|j: int| 0 <= j < a.len() + i implies (a + b)[j] != c by {
                if j < a.len() {
                    assert((a + b)[j] == a[j]);
                } else {
                    assert((a + b)[j] == b[j - a.len()]);
                }
            }
            lemma_find_ch_is(a + b, c, a.len() + i);
        },
    }
}

/// `find_sep` returns the least index of `"://"`, or `None` when absent.
pub proof fn lemma_find_sep(s: Seq<char>)
    ensures
        match find_sep(s) {
            Some(i) => sep_at(s, i) && (forall|j: int| 0 <= j < i ==> !sep_at(s, j)),
            None => forall|j: int| !sep_at(s, j),
        },
    decreases s.len(),
{
    if s.len() < 3 {
    } else if s[0] == ':' && s[1] == '/' && s[2] == '/' {
    } else {
        let t = s.subrange(1, s.len() as int);
        lemma_find_sep(t);
        assert(forall|j: int| 0 <= j < t.len() ==> t[j] == s[j + 1]);
        assert(forall|j: int| sep_at(t, j) <==> sep_at(s, j + 1));
        match find_sep(t) {
            None => {
                assert forall|j: int| !sep_at(s, j) by {
                    if 1 <= j {
                        assert(!sep_at(t, j - 1));
                    }
                }
            },
            Some(i) => {
                assert forall|j: int| 0 <= j < i + 1 implies !sep_at(s, j) by {
                    if 1 <= j {
                        assert(!sep_at(t, j - 1));
                    }
                }
            },
        }
    }
}

/// Converse direction: a least separator position determines `find_sep`.
pub proof fn lemma_find_sep_is(s: Seq<char>, k: int)
    requires
        sep_at(s, k),
        forall|j: int| 0 <= j < k ==> !sep_at(s, j),
    ensures
        find_sep(s) == Some(k),
{
    lemma_find_sep(s);
    if let Some(i) = find_sep(s) {
        if i < k {
            assert(!sep_at(s, i));
        }
        if k < i {
            assert(!sep_at(s, k));
        }
    } else {
        assert(!sep_at(s, k));
    }
}

/// First occurrence of the character `c` in `s`.
pub fn find_char(s: &str, c: char) -> (r: Option<usize>)
    ensures
        match r {
            Some(i) => find_ch(s@, c) == Some(i as int),
            None => find_ch(s@, c) is None,
        },
{
    let n = s.unicode_len();
    let mut i: usize = 0;
    while i < n
        invariant
            i <= n,
            n == s@.len(),
            forall|j: int| 0 <= j < i ==> s@[j] != c,
        decreases n - i,
    {
        if s.get_char(i) == c {
            proof {
                lemma_find_ch_is(s@, c, i as int);
            }
            return Some(i);
        }
        i = i + 1;
    }
    proof {
        lemma_find_ch_none(s@, c);
    }
    None
}

/// First occurrence of the scheme separator `"://"` in `s`.
pub fn find_scheme_sep(s: &str) -> (r: Option<usize>)
    ensures
        match r {
            Some(i) => find_sep(s@) == Some(i as int),
            None => find_sep(s@) is None,
        },
{
    let n = s.unicode_len();
    if n < 3 {
        proof {
            lemma_find_sep(s@);
            if let Some(i) = find_sep(s@) {
                assert(sep_at(s@, i));
            }
        }
        return None;
    }
    let mut i: usize = 0;
    while i <= n - 3
        invariant
            3 <= n == s@.len(),
            i <= n - 2,
            forall|j: int| 0 <= j < i ==> !sep_at(s@, j),
        decreases n - i,
    {
        if s.get_char(i) == ':' && s.get_char(i + 1) == '/' && s.get_char(i + 2) == '/' {
            proof {
                lemma_find_sep_is(s@, i as int);
            }
            return Some(i);
        }
        i = i + 1;
    }
    proof {
        assert forall|j: int| !sep_at(s@, j) by {
            if 0 <= j < i {
            } else if 0 <= j && j + 3 <= s@.len() {
                assert(false);
            }
        }
        lemma_find_sep(s@);
        if let Some(k) = find_sep(s@) {
            assert(sep_at(s@, k));
        }
    }
    None
}

} // verus!
