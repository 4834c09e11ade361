//! Comments inserted into whitespace.
use vstd::prelude::*;
use crate::error::ParseError;
use crate::grammar::{
    comment_close, is_space_byte, starts_comment, whitespace_end, whitespace_from, SLASH, STAR,
};

verus! {

/// The comment `/*c*/`.
pub open spec fn comment_bytes(c: Seq<u8>) -> Seq<u8> {
    seq![SLASH, STAR] + c + seq![STAR, SLASH]
}

/// `c` holds no `*/`, so `/*c*/` is one whole comment.
pub open spec fn no_comment_end(c: Seq<u8>) -> bool {
    forall|k: int| 0 <= k < c.len() - 1 ==> !(#[trigger] c[k] == STAR && c[k + 1] == SLASH)
}

/// `s` with `t` inserted before offset `p`.
pub open spec fn insert_at(s: Seq<u8>, p: int, t: Seq<u8>) -> Seq<u8> {
    s.subrange(0, p) + t + s.subrange(p, s.len() as int)
}

/// Offset `p` is reached from `i` by whole pieces of whitespace: single spaces
/// and complete comments.
pub open spec fn piece_boundary(s: Seq<u8>, i: int, p: int, newlines: bool) -> bool
    decreases s.len() - i,
{
    if i == p {
        true
    } else if i > p {
        false
    } else if 0 <= i < s.len() && is_space_byte(s[i], newlines) {
        piece_boundary(s, i + 1, p, newlines)
    } else if starts_comment(s, i) {
        match comment_close(s, i + 2) {
            Some(j) => if i < j <= s.len() {
                piece_boundary(s, j, p, newlines)
            } else {
                false
            },
            None => false,
        }
    } else {
        false
    }
}

proof fn lemma_close_suffix(s1: Seq<u8>, s2: Seq<u8>, j: int, k: int)
    requires
        0 <= j,
        0 <= k,
        s2.len() == s1.len() + k,
        forall|m: int| j <= m < s1.len() ==> s2[m + k] == s1[m],
    ensures
        match comment_close(s1, j) {
            Some(e) => comment_close(s2, j + k) == Some(e + k),
            None => comment_close(s2, j + k) is None,
        },
    decreases s1.len() - j,
{
    if j + 1 < s1.len() {
        lemma_close_suffix(s1, s2, j + 1, k);
    }
}

proof fn lemma_whitespace_suffix(s1: Seq<u8>, s2: Seq<u8>, j: int, k: int, newlines: bool, first: bool)
    requires
        0 <= j,
        0 <= k,
        s2.len() == s1.len() + k,
        forall|m: int| j <= m < s1.len() ==> s2[m + k] == s1[m],
    ensures
        match whitespace_from(s1, j, newlines, first) {
            Ok(e) => whitespace_from(s2, j + k, newlines, first) == Ok::<int, ParseError>(e + k),
            Err(_) => whitespace_from(s2, j + k, newlines, first) is Err,
        },
    decreases s1.len() - j,
{
    if j < s1.len() {
        lemma_whitespace_suffix(s1, s2, j + 1, k, newlines, false);
        lemma_close_suffix(s1, s2, j + 2, k);
        match comment_close(s1, j + 2) {
            Some(e) => {
                if j < e <= s1.len() {
                    lemma_whitespace_suffix(s1, s2, e, k, newlines, false);
                }
            },
            None => {},
        }
    }
}

/// A run that succeeds as a whole run succeeds alike when a piece was taken before it.
proof fn lemma_whitespace_first(s: Seq<u8>, j: int, newlines: bool)
    requires
        0 <= j,
    ensures
        whitespace_from(s, j, newlines, true) matches Ok(e) ==> whitespace_from(s, j, newlines, false) == Ok::<int, ParseError>(e),
{
}

proof fn lemma_close_after(s: Seq<u8>, j: int)
    requires
        0 <= j,
    ensures
        comment_close(s, j) matches Some(e) ==> j + 2 <= e <= s.len(),
    decreases s.len() - j,
{
    if j + 1 < s.len() {
        lemma_close_after(s, j + 1);
    }
}

proof fn lemma_close_prefix(s1: Seq<u8>, s2: Seq<u8>, j: int, p: int)
    requires
        0 <= j,
        p <= s1.len(),
        p <= s2.len(),
        forall|m: int| 0 <= m < p ==> s2[m] == s1[m],
        comment_close(s1, j) matches Some(e) && e <= p,
    ensures
        comment_close(s2, j) == comment_close(s1, j),
    decreases s1.len() - j,
{
    lemma_close_after(s1, j + 1);
    if j + 1 < s1.len() && !(s1[j] == STAR && s1[j + 1] == SLASH) {
        lemma_close_prefix(s1, s2, j + 1, p);
    }
    assert(s2[j] == s1[j] && s2[j + 1] == s1[j + 1]);
}

proof fn lemma_inserted_comment_closes(s2: Seq<u8>, p: int, c: Seq<u8>, j: int)
    requires
        0 <= p,
        p + c.len() + 4 <= s2.len(),
        s2.subrange(p, p + c.len() + 4) == comment_bytes(c),
        no_comment_end(c),
        p + 2 <= j <= p + 2 + c.len(),
    ensures
        comment_close(s2, j) == Some(p + c.len() + 4),
    decreases p + 2 + c.len() - j,
{
    let t = comment_bytes(c);
    assert(s2[j - p + p] == t[j - p]);
    assert(s2[j + 1 - p + p] == t[j + 1 - p]);
    if j < p + 2 + c.len() {
        if j + 1 < p + 2 + c.len() {
            assert(t[j - p] == c[j - p - 2] && t[j + 1 - p] == c[j - p - 1]);
        } else {
            assert(t[j + 1 - p] == STAR);
        }
        lemma_inserted_comment_closes(s2, p, c, j + 1);
    }
}

proof fn lemma_comment_in_run(s: Seq<u8>, i: int, p: int, c: Seq<u8>, newlines: bool, first: bool)
    requires
        0 <= i <= p <= s.len(),
        piece_boundary(s, i, p, newlines),
        no_comment_end(c),
    ensures
        ({
            let s2 = insert_at(s, p, comment_bytes(c));
            whitespace_from(s, i, newlines, first) matches Ok(e) ==> whitespace_from(s2, i, newlines, first)
                == Ok::<int, ParseError>(e + c.len() + 4)
        }),
    decreases p - i,
{
    let t = comment_bytes(c);
    let k = t.len() as int;
    let s2 = insert_at(s, p, t);
    assert(s2.len() == s.len() + k);
    assert forall|m: int| 0 <= m < p implies s2[m] == s[m] by {}
    if i == p {
        assert(s2[p] == t[0] && s2[p + 1] == t[1]);
        assert(s2.subrange(p, p + k) =~= t);
        lemma_inserted_comment_closes(s2, p, c, p + 2);
        assert forall|m: int| p <= m < s.len() implies s2[m + k] == s[m] by {}
        lemma_whitespace_suffix(s, s2, p, k, newlines, false);
        lemma_whitespace_first(s, p, newlines);
    } else if 0 <= i < s.len() && is_space_byte(s[i], newlines) {
        assert(s2[i] == s[i]);
        lemma_comment_in_run(s, i + 1, p, c, newlines, false);
    } else {
        let j = comment_close(s, i + 2)->Some_0;
        lemma_close_after(s, i + 2);
        assert(piece_boundary(s, j, p, newlines));
        assert(j <= p);
        assert(s2[i] == s[i] && s2[i + 1] == s[i + 1]);
        lemma_close_prefix(s, s2, i + 2, p);
        lemma_comment_in_run(s, j, p, c, newlines, false);
    }
}

/// A comment inserted into a run of whitespace, at a place between two of its
/// pieces, becomes part of that run: a run that ended fine ends at the same
/// byte of the input as before, moved on by the comment's length.
pub proof fn comment_in_whitespace(s: Seq<u8>, i: int, p: int, c: Seq<u8>, newlines: bool)
    requires
        0 <= i <= p <= s.len(),
        piece_boundary(s, i, p, newlines),
        no_comment_end(c),
    ensures
        ({
            let s2 = insert_at(s, p, comment_bytes(c));
            whitespace_end(s, i, newlines) matches Ok(e) ==> whitespace_end(s2, i, newlines)
                == Ok::<int, ParseError>(e + c.len() + 4)
        }),
{
    lemma_comment_in_run(s, i, p, c, newlines, true);
}

} // verus!
