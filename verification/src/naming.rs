//! Derivation and validation of canonical op names from stringified symbol
//! paths: any trailing generic-parameter suffix is cut off, the final path
//! segment is taken, and that segment must begin with the `op_` marker.

use vstd::prelude::*;
use vstd::string::StrSliceExecFns;

verus! {

/// The marker every canonical op name must begin with, spelled out
/// character by character.
pub open spec fn op_marker() -> Seq<char> {
    seq!['o', 'p', '_']
}

/// The pattern `pat` occurs in `s` starting at position `i`.
pub open spec fn pat_at(s: Seq<char>, pat: Seq<char>, i: int) -> bool {
    0 <= i && i + pat.len() <= s.len() && s.subrange(i, i + pat.len() as int) == pat
}

/// Position of the last occurrence of `pat` in `s` that starts strictly
/// below `n`, if there is one.
pub open spec fn last_match_below(s: Seq<char>, pat: Seq<char>, n: nat) -> Option<int>
    decreases n,
{
    if n == 0 {
        None
    } else if pat_at(s, pat, n - 1) {
        Some(n - 1)
    } else {
        last_match_below(s, pat, (n - 1) as nat)
    }
}

/// Position of the last occurrence of `pat` in `s`, if there is one.
pub open spec fn last_match(s: Seq<char>, pat: Seq<char>) -> Option<int> {
    last_match_below(s, pat, s.len())
}

/// `last_match_below` answers `Some` exactly for the rightmost occurrence
/// below `n`, and `None` when there is none.
pub proof fn lemma_last_match_below(s: Seq<char>, pat: Seq<char>, n: nat)
    ensures
        match last_match_below(s, pat, n) {
            Some(i) => pat_at(s, pat, i) && 0 <= i < n && (forall|j: int|
                i < j < n ==> !pat_at(s, pat, j)),
            None => forall|j: int| 0 <= j < n ==> !pat_at(s, pat, j),
        },
    decreases n,
{
    if n > 0 && !pat_at(s, pat, n - 1) {
        lemma_last_match_below(s, pat, (n - 1) as nat);
    }
}

/// An occurrence at `k` with no occurrence between `k` and `n` pins
/// `last_match_below` down to `Some(k)`.
pub proof fn lemma_last_match_below_unique(s: Seq<char>, pat: Seq<char>, n: nat, k: int)
    requires
        pat_at(s, pat, k),
        k < n,
        forall|j: int| k < j < n ==> !pat_at(s, pat, j),
    ensures
        last_match_below(s, pat, n) == Some(k),
{
    lemma_last_match_below(s, pat, n);
}

/// The path with a trailing generic-parameter suffix cut off: everything
/// from the last `::<` on is dropped.
pub open spec fn strip_generics(s: Seq<char>) -> Seq<char> {
    match last_match(s, seq![':', ':', '<']) {
        Some(i) => s.take(i),
        None => s,
    }
}

/// The final segment of a path already free of its generic suffix:
/// everything after the last `::`.
pub open spec fn final_segment(s: Seq<char>) -> Seq<char> {
    match last_match(s, seq![':', ':']) {
        Some(i) => s.skip(i + 2),
        None => s,
    }
}

/// The candidate op name a stringified symbol path yields.
pub open spec fn op_name_of(s: Seq<char>) -> Seq<char> {
    final_segment(strip_generics(s))
}

/// Does the candidate name carry the required `op_` marker?
pub open spec fn is_valid_op_path(s: Seq<char>) -> bool {
    op_name_of(s).len() >= 3 && op_name_of(s).subrange(0, 3) == op_marker()
}

/// Position of the last occurrence of the two-character pattern `c0 c1`
/// in `s`, scanning from the right.
fn rfind2(s: &str, c0: char, c1: char) -> (r: Option<usize>)
    ensures
        match r {
            Some(i) => last_match(s@, seq![c0, c1]) == Some(i as int),
            None => last_match(s@, seq![c0, c1]) is None,
        },
{
    let n = s.unicode_len();
    if n < 2 {
        proof {
            lemma_last_match_below(s@, seq![c0, c1], s@.len());
        }
        return None;
    }
    let mut i: usize = n - 2;
    loop
        invariant
            n == s@.len(),
            2 <= n,
            i <= n - 2,
            forall|j: int| i < j ==> !pat_at(s@, seq![c0, c1], j),
        decreases i,
    {
        let a = s.get_char(i);
        let b = s.get_char(i + 1);
        if a == c0 && b == c1 {
            proof {
                assert(s@.subrange(i as int, i as int + 2) =~= seq![c0, c1]);
                lemma_last_match_below_unique(s@, seq![c0, c1], s@.len(), i as int);
            }
            return Some(i);
        }
        proof {
            assert(!pat_at(s@, seq![c0, c1], i as int)) by {
                if pat_at(s@, seq![c0, c1], i as int) {
                    assert(s@.subrange(i as int, i as int + 2)[0] == c0);
                    assert(s@.subrange(i as int, i as int + 2)[1] == c1);
                }
            }
        }
        if i == 0 {
            proof {
                lemma_last_match_below(s@, seq![c0, c1], s@.len());
            }
            return None;
        }
        i -= 1;
    }
}

/// Position of the last occurrence of the three-character pattern
/// `c0 c1 c2` in `s`, scanning from the right.
fn rfind3(s: &str, c0: char, c1: char, c2: char) -> (r: Option<usize>)
    ensures
        match r {
            Some(i) => last_match(s@, seq![c0, c1, c2]) == Some(i as int),
            None => last_match(s@, seq![c0, c1, c2]) is None,
        },
{
    let n = s.unicode_len();
    if n < 3 {
        proof {
            lemma_last_match_below(s@, seq![c0, c1, c2], s@.len());
        }
        return None;
    }
    let mut i: usize = n - 3;
    loop
        invariant
            n == s@.len(),
            3 <= n,
            i <= n - 3,
            forall|j: int| i < j ==> !pat_at(s@, seq![c0, c1, c2], j),
        decreases i,
    {
        let a = s.get_char(i);
        let b = s.get_char(i + 1);
        let c = s.get_char(i + 2);
        if a == c0 && b == c1 && c == c2 {
            proof {
                assert(s@.subrange(i as int, i as int + 3) =~= seq![c0, c1, c2]);
                lemma_last_match_below_unique(s@, seq![c0, c1, c2], s@.len(), i as int);
            }
            return Some(i);
        }
        proof {
            assert(!pat_at(s@, seq![c0, c1, c2], i as int)) by {
                if pat_at(s@, seq![c0, c1, c2], i as int) {
                    assert(s@.subrange(i as int, i as int + 3)[0] == c0);
                    assert(s@.subrange(i as int, i as int + 3)[1] == c1);
                    assert(s@.subrange(i as int, i as int + 3)[2] == c2);
                }
            }
        }
        if i == 0 {
            proof {
                lemma_last_match_below(s@, seq![c0, c1, c2], s@.len());
            }
            return None;
        }
        i -= 1;
    }
}

/// The character `c` occurs somewhere in `s`.
pub open spec fn has_char(s: Seq<char>, c: char) -> bool {
    exists|i: int| 0 <= i < s.len() && s[i] == c
}

/// A path without an opening angle bracket has no generic suffix to strip.
pub proof fn lemma_strip_generics_no_bracket(s: Seq<char>)
    requires
        !has_char(s, '<'),
    ensures
        strip_generics(s) == s,
{
    lemma_last_match_below(s, seq![':', ':', '<'], s.len());
    if let Some(i) = last_match(s, seq![':', ':', '<']) {
        assert(s.subrange(i, i + 3)[2] == '<');
        assert(s[i + 2] == '<');
    }
}

/// The final segment of `prefix::name` is exactly `name` whenever `name`
/// holds no separator character.
pub proof fn lemma_final_segment_qualified(prefix: Seq<char>, name: Seq<char>)
    requires
        !has_char(name, ':'),
    ensures
        final_segment(prefix + seq![':', ':'] + name) == name,
{
    let s = prefix + seq![':', ':'] + name;
    let p = prefix.len() as int;
    assert(s.subrange(p, p + 2) =~= seq![':', ':']);
    assert forall|j: int| p < j implies !pat_at(s, seq![':', ':'], j) by {
        if pat_at(s, seq![':', ':'], j) {
            if j == p + 1 {
                assert(s.subrange(j, j + 2)[1] == ':');
                assert(s[j + 1] == ':');
                assert(name[0] == ':');
            } else {
                assert(s.subrange(j, j + 2)[0] == ':');
                assert(s[j] == ':');
                assert(name[j - (p + 2)] == ':');
            }
        }
    }
    lemma_last_match_below_unique(s, seq![':', ':'], s.len(), p);
    assert(s.skip(p + 2) =~= name);
}

/// Law: for a qualified path `prefix::name` whose name holds neither a
/// separator nor an angle bracket, and whose prefix holds no angle bracket,
/// the derived candidate is exactly `name`.
pub proof fn lemma_op_name_of_qualified(prefix: Seq<char>, name: Seq<char>)
    requires
        !has_char(prefix, '<'),
        !has_char(name, '<'),
        !has_char(name, ':'),
    ensures
        op_name_of(prefix + seq![':', ':'] + name) == name,
{
    let s = prefix + seq![':', ':'] + name;
    let p = prefix.len() as int;
    assert forall|i: int| 0 <= i < s.len() implies s[i] != '<' by {
        if i < p {
            assert(s[i] == prefix[i]);
        } else if i >= p + 2 {
            assert(s[i] == name[i - (p + 2)]);
        }
    }
    lemma_strip_generics_no_bracket(s);
    lemma_final_segment_qualified(prefix, name);
}

/// Law: a trailing generic suffix `::<...>` is cut off before the final
/// segment is taken, so `prefix::name::<...>` still yields `name`, as long
/// as no stray angle bracket opens earlier or later in the path.
pub proof fn lemma_op_name_of_generic_suffix(prefix: Seq<char>, name: Seq<char>, tail: Seq<char>)
    requires
        !has_char(prefix, '<'),
        !has_char(name, '<'),
        !has_char(name, ':'),
        !has_char(tail, '<'),
    ensures
        op_name_of(prefix + seq![':', ':'] + name + seq![':', ':', '<'] + tail) == name,
{
    let h = prefix + seq![':', ':'] + name;
    let s = h + seq![':', ':', '<'] + tail;
    let p = h.len() as int;
    assert(s.subrange(p, p + 3) =~= seq![':', ':', '<']);
    assert forall|j: int| p < j implies !pat_at(s, seq![':', ':', '<'], j) by {
        if pat_at(s, seq![':', ':', '<'], j) {
            assert(s.subrange(j, j + 3)[2] == '<');
            assert(s[j + 2] == '<');
            assert(tail[j + 2 - (p + 3)] == '<');
        }
    }
    lemma_last_match_below_unique(s, seq![':', ':', '<'], s.len(), p);
    assert(strip_generics(s) =~= h);
    lemma_final_segment_qualified(prefix, name);
}

/// Derives the candidate op name from a stringified symbol path and checks
/// the `op_` marker: `Some` exactly when the marker is there, and then the
/// bare final identifier, with any generic suffix already stripped.
pub fn try_op_ident(ident_path: &'static str) -> (r: Option<&'static str>)
    ensures
        r is Some <==> is_valid_op_path(ident_path@),
        r matches Some(name) ==> name@ == op_name_of(ident_path@),
{
    let n = ident_path.unicode_len();
    let end = match rfind3(ident_path, ':', ':', '<') {
        Some(i) => {
            proof {
                lemma_last_match_below(ident_path@, seq![':', ':', '<'], ident_path@.len());
            }
            i
        },
        None => n,
    };
    let head = ident_path.substring_char(0, end);
    proof {
        assert(head@ =~= strip_generics(ident_path@));
    }
    let hlen = head.unicode_len();
    let start = match rfind2(head, ':', ':') {
        Some(i) => {
            proof {
                lemma_last_match_below(head@, seq![':', ':'], head@.len());
            }
            i + 2
        },
        None => 0,
    };
    let name = head.substring_char(start, hlen);
    proof {
        assert(name@ =~= op_name_of(ident_path@));
    }
    let nlen = name.unicode_len();
    let ok = nlen >= 3 && name.get_char(0) == 'o' && name.get_char(1) == 'p' && name.get_char(2)
        == '_';
    if ok {
        proof {
            assert(name@.subrange(0, 3) =~= op_marker());
        }
        Some(name)
    } else {
        proof {
            if is_valid_op_path(ident_path@) {
                assert(name@.subrange(0, 3)[0] == 'o');
                assert(name@.subrange(0, 3)[1] == 'p');
                assert(name@.subrange(0, 3)[2] == '_');
            }
        }
        None
    }
}

/// Derives the canonical op name from a stringified symbol path. The path
/// must carry the `op_` marker on its final segment; `try_op_ident` tells
/// the two cases apart for callers that cannot promise that.
pub fn op_ident(ident_path: &'static str) -> (name: &'static str)
    requires
        is_valid_op_path(ident_path@),
    ensures
        name@ == op_name_of(ident_path@),
{
    try_op_ident(ident_path).unwrap()
}

} // verus!
