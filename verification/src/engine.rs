//! The executable matching engine.
//!
//! Each function is verified to return exactly what the corresponding
//! specification function in [`crate::semantics`] says. The engine works
//! on slices of characters and never backtracks: a match attempt reads
//! the input strictly left to right.

use vstd::prelude::*;
use vstd::slice::slice_index_get;
use vstd::slice::slice_subrange;

use crate::semantics::ParseError;
use crate::semantics::find_idx;
use crate::semantics::lemma_find_idx;
use crate::semantics::lemma_find_idx_absent;
use crate::semantics::lemma_find_idx_contains;
use crate::semantics::lemma_find_idx_is_first;
use crate::semantics::lemma_parse_atom_len;
use crate::semantics::lemma_run_len;
use crate::semantics::lemma_run_len_is;
use crate::semantics::spec_match_alternation;
use crate::semantics::spec_match_char;
use crate::semantics::spec_match_from_start;
use crate::semantics::spec_matches;
use crate::semantics::spec_parse_atom;
use crate::semantics::spec_run_len;
use crate::semantics::spec_try_alts;
use crate::semantics::spec_try_offsets;

verus! {

/// Whether `c` occurs in `s[lo..hi]`.
fn contains_char(s: &[char], lo: usize, hi: usize, c: char) -> (r: bool)
    requires
        lo <= hi <= s@.len(),
    ensures
        r == s@.subrange(lo as int, hi as int).contains(c),
{
    let mut i: usize = lo;
    let mut found: bool = false;
    while i < hi
        invariant
            lo <= i <= hi <= s@.len(),
            found <==> exists|j: int| lo <= j < i && s@[j] == c,
        decreases hi - i,
    {
        if *slice_index_get(s, i) == c {
            found = true;
        }
        i = i + 1;
    }
    proof {
        let sub = s@.subrange(lo as int, hi as int);
        if found {
            let j = choose|j: int| lo <= j < hi && s@[j] == c;
            assert(sub[j - lo] == c);
        } else if sub.contains(c) {
            let k = choose|k: int| 0 <= k < sub.len() && sub[k] == c;
            assert(s@[lo + k] == c);
        }
    }
    found
}

/// Index of the first occurrence of `c` in `s`, or `s.len()` if absent.
fn find_char(s: &[char], c: char) -> (r: usize)
    ensures
        r as int == find_idx(s@, c),
{
    let n = s.len();
    let mut i: usize = 0;
    while i < n
        invariant
            i <= n,
            n == s@.len(),
            forall|j: int| 0 <= j < i ==> s@[j] != c,
        decreases n - i,
    {
        if *slice_index_get(s, i) == c {
            proof {
                lemma_find_idx_is_first(s@, c, i as int);
            }
            return i;
        }
        i = i + 1;
    }
    proof {
        lemma_find_idx_absent(s@, c);
    }
    n
}

/// Decides whether one character satisfies one atom, the atom given as
/// its textual span (`a`, `.`, `\d`, `\w`, `\x`, `[abc]`, `[^abc]`).
pub fn match_char(chr: char, atom: &[char]) -> (r: bool)
    ensures
        r == spec_match_char(atom@, chr),
{
    let n = atom.len();
    if n == 2 && *slice_index_get(atom, 0) == '\\' {
        let e = *slice_index_get(atom, 1);
        if e == 'd' {
            '0' <= chr && chr <= '9'
        } else if e == 'w' {
            ('0' <= chr && chr <= '9') || ('a' <= chr && chr <= 'z') || ('A' <= chr && chr <= 'Z')
        } else {
            chr == e
        }
    } else if n >= 3 && *slice_index_get(atom, 0) == '[' && *slice_index_get(atom, 1) == '^' {
        !contains_char(atom, 2, n - 1, chr)
    } else if n >= 2 && *slice_index_get(atom, 0) == '[' {
        contains_char(atom, 1, n - 1, chr)
    } else {
        n == 1 && (*slice_index_get(atom, 0) == '.' || *slice_index_get(atom, 0) == chr)
    }
}

/// Slices the next atom off the front of `pat`: reports how many pattern
/// characters it spans, or the structural defect that stops the scan.
pub fn parse_pattern(pat: &[char]) -> (r: Result<usize, ParseError>)
    requires
        pat@.len() >= 1,
    ensures
        r matches Ok(alen) ==> spec_parse_atom(pat@) == Ok::<int, ParseError>(alen as int),
        r matches Err(e) ==> spec_parse_atom(pat@) == Err::<int, ParseError>(e),
{
    let n = pat.len();
    let c0 = *slice_index_get(pat, 0);
    if c0 == '\\' {
        if n < 2 {
            Err(ParseError::TruncatedEscape)
        } else {
            Ok(2)
        }
    } else if c0 == '[' {
        let e = find_char(pat, ']');
        if e < n {
            Ok(e + 1)
        } else {
            Err(ParseError::UnterminatedClass)
        }
    } else {
        Ok(1)
    }
}

/// Consumes exactly one input character satisfying the atom, advancing
/// the cursor; fails without moving if the input is exhausted or the
/// current character does not satisfy the atom.
pub fn consume_single(input: &[char], cursor: &mut usize, atom: &[char]) -> (r: bool)
    requires
        *old(cursor) <= input@.len(),
    ensures
        r == (*old(cursor) < input@.len() && spec_match_char(atom@, input@[*old(cursor) as int])),
        r ==> *final(cursor) == *old(cursor) + 1,
        !r ==> *final(cursor) == *old(cursor),
{
    if *cursor < input.len() && match_char(*slice_index_get(input, *cursor), atom) {
        *cursor = *cursor + 1;
        true
    } else {
        false
    }
}

/// Consumes one input character if it satisfies the atom, nothing
/// otherwise; always succeeds.
pub fn consume_optional(input: &[char], cursor: &mut usize, atom: &[char])
    requires
        *old(cursor) <= input@.len(),
    ensures
        *old(cursor) < input@.len() && spec_match_char(atom@, input@[*old(cursor) as int])
            ==> *final(cursor) == *old(cursor) + 1,
        !(*old(cursor) < input@.len() && spec_match_char(atom@, input@[*old(cursor) as int]))
            ==> *final(cursor) == *old(cursor),
{
    if *cursor < input.len() && match_char(*slice_index_get(input, *cursor), atom) {
        *cursor = *cursor + 1;
    }
}

/// Greedily consumes the maximal run of input characters satisfying the
/// atom; fails without moving unless at least one character is consumed.
/// The consumption is final: consumed characters are never given back.
pub fn consume_repeated(input: &[char], cursor: &mut usize, atom: &[char]) -> (r: bool)
    requires
        *old(cursor) <= input@.len(),
    ensures
        r == (*old(cursor) < input@.len() && spec_match_char(atom@, input@[*old(cursor) as int])),
        r ==> *final(cursor) == *old(cursor) + spec_run_len(
            input@.skip(*old(cursor) as int),
            atom@,
        ),
        !r ==> *final(cursor) == *old(cursor),
        *final(cursor) <= input@.len(),
{
    let start: usize = *cursor;
    if start < input.len() && match_char(*slice_index_get(input, start), atom) {
        let mut pos: usize = start;
        while pos < input.len() && match_char(*slice_index_get(input, pos), atom)
            invariant
                start <= pos <= input@.len(),
                forall|j: int| start <= j < pos ==> spec_match_char(atom@, input@[j]),
            decreases input@.len() - pos,
        {
            pos = pos + 1;
        }
        proof {
            let s = input@.skip(start as int);
            assert forall|j: int| 0 <= j < pos - start implies spec_match_char(atom@, s[j]) by {
                assert(s[j] == input@[start + j]);
            }
            if (pos as int) < input@.len() {
                assert(s[pos - start] == input@[pos as int]);
            }
            lemma_run_len_is(s, atom@, pos - start);
        }
        *cursor = pos;
        true
    } else {
        false
    }
}

/// Matches the whole of `pattern` against a prefix of `input`, both read
/// from index 0.
///
/// Atoms are taken off the front of the pattern one at a time; the single
/// character after an atom's span selects its quantifier. The result is a
/// match exactly when the pattern is fully consumed; a leftover pattern
/// at input exhaustion is a failure, even if that leftover could be
/// satisfied by zero characters.
pub fn match_from_start(input: &[char], pattern: &[char]) -> (r: Result<bool, ParseError>)
    ensures
        r == spec_match_from_start(input@, pattern@),
{
    let ilen = input.len();
    let plen = pattern.len();
    let mut ipos: usize = 0;
    let mut ppos: usize = 0;
    proof {
        assert(input@.skip(0) =~= input@);
        assert(pattern@.skip(0) =~= pattern@);
    }
    while ppos < plen && ipos < ilen
        invariant
            ipos <= ilen,
            ppos <= plen,
            ilen == input@.len(),
            plen == pattern@.len(),
            spec_match_from_start(input@, pattern@) == spec_match_from_start(
                input@.skip(ipos as int),
                pattern@.skip(ppos as int),
            ),
        decreases plen - ppos,
    {
        let ghost isuf = input@.skip(ipos as int);
        let ghost psuf = pattern@.skip(ppos as int);
        let psuf_slice = slice_subrange(pattern, ppos, plen);
        proof {
            assert(psuf_slice@ =~= psuf);
        }
        let alen = match parse_pattern(psuf_slice) {
            Ok(alen) => alen,
            Err(e) => {
                proof {
                    assert(spec_match_from_start(isuf, psuf) == Err::<bool, ParseError>(e));
                }
                return Err(e);
            },
        };
        proof {
            lemma_parse_atom_len(psuf);
        }
        let atom = slice_subrange(pattern, ppos, ppos + alen);
        let ghost rest = psuf.skip(alen as int);
        proof {
            assert(atom@ =~= psuf.subrange(0, alen as int));
            assert(pattern@.skip(ppos + alen) =~= rest);
        }
        let anext = ppos + alen;
        if anext < plen && *slice_index_get(pattern, anext) == '+' {
            proof {
                assert(rest[0] == pattern@[anext as int]);
                assert(isuf[0] == input@[ipos as int]);
            }
            let matched = consume_repeated(input, &mut ipos, atom);
            if !matched {
                proof {
                    assert(spec_match_from_start(isuf, psuf) == Ok::<bool, ParseError>(false));
                }
                return Ok(false);
            }
            proof {
                lemma_run_len(isuf, atom@);
                assert(input@.skip(ipos as int) =~= isuf.skip(spec_run_len(isuf, atom@)));
                assert(pattern@.skip(anext + 1) =~= rest.skip(1));
                assert(spec_match_from_start(isuf, psuf) == spec_match_from_start(
                    isuf.skip(spec_run_len(isuf, atom@)),
                    rest.skip(1),
                ));
            }
            ppos = anext + 1;
        } else if anext < plen && *slice_index_get(pattern, anext) == '?' {
            proof {
                assert(rest[0] == pattern@[anext as int]);
                assert(isuf[0] == input@[ipos as int]);
            }
            let ghost ipos0 = ipos;
            consume_optional(input, &mut ipos, atom);
            proof {
                assert(pattern@.skip(anext + 1) =~= rest.skip(1));
                if spec_match_char(atom@, isuf[0]) {
                    assert(input@.skip(ipos as int) =~= isuf.skip(1));
                    assert(spec_match_from_start(isuf, psuf) == spec_match_from_start(
                        isuf.skip(1),
                        rest.skip(1),
                    ));
                } else {
                    assert(input@.skip(ipos as int) =~= isuf);
                    assert(spec_match_from_start(isuf, psuf) == spec_match_from_start(
                        isuf,
                        rest.skip(1),
                    ));
                }
            }
            ppos = anext + 1;
        } else {
            proof {
                assert(rest.len() > 0 ==> rest[0] == pattern@[anext as int]);
                assert(isuf[0] == input@[ipos as int]);
            }
            let matched = consume_single(input, &mut ipos, atom);
            if !matched {
                proof {
                    assert(spec_match_from_start(isuf, psuf) == Ok::<bool, ParseError>(false));
                }
                return Ok(false);
            }
            proof {
                assert(input@.skip(ipos as int) =~= isuf.skip(1));
                assert(spec_match_from_start(isuf, psuf) == spec_match_from_start(
                    isuf.skip(1),
                    rest,
                ));
            }
            ppos = anext;
        }
    }
    if ppos == plen {
        proof {
            assert(pattern@.skip(ppos as int).len() == 0);
        }
        Ok(true)
    } else {
        proof {
            assert(input@.skip(ipos as int).len() == 0);
            assert(pattern@.skip(ppos as int).len() > 0);
        }
        Ok(false)
    }
}

/// Appends `src[lo..hi]` to `dst`.
fn push_range(dst: &mut Vec<char>, src: &[char], lo: usize, hi: usize)
    requires
        lo <= hi <= src@.len(),
    ensures
        final(dst)@ == old(dst)@ + src@.subrange(lo as int, hi as int),
{
    let mut i: usize = lo;
    proof {
        assert(dst@ =~= dst@ + src@.subrange(lo as int, lo as int));
    }
    while i < hi
        invariant
            lo <= i <= hi <= src@.len(),
            dst@ == old(dst)@ + src@.subrange(lo as int, i as int),
        decreases hi - i,
    {
        let ghost pre = dst@;
        dst.push(*slice_index_get(src, i));
        proof {
            assert(pre.push(src@[i as int]) =~= old(dst)@ + src@.subrange(lo as int, i + 1));
        }
        i = i + 1;
    }
}

/// Evaluates a whole pattern against a whole input line.
///
/// A pattern containing `|` goes through alternation expansion; otherwise
/// the anchors select the search window: `^...$` demands an exact-length
/// match, `^` fixes the start, `$` fixes the end, and an unanchored
/// pattern is tried at every start offset in increasing order.
pub fn match_pattern(input: &[char], pattern: &[char]) -> (r: Result<bool, ParseError>)
    ensures
        r == spec_matches(input@, pattern@),
    decreases pattern@.len(), 1int,
{
    let plen = pattern.len();
    let pipe = find_char(pattern, '|');
    proof {
        lemma_find_idx_contains(pattern@, '|');
    }
    if pipe < plen {
        return match_alternation(input, pattern);
    }
    if plen >= 1 && *slice_index_get(pattern, 0) == '^' && *slice_index_get(pattern, plen - 1)
        == '$' {
        let core = slice_subrange(pattern, 1, plen - 1);
        if input.len() == core.len() {
            match_from_start(input, core)
        } else {
            Ok(false)
        }
    } else if plen >= 1 && *slice_index_get(pattern, 0) == '^' {
        let core = slice_subrange(pattern, 1, plen);
        proof {
            assert(core@ =~= pattern@.skip(1));
        }
        match_from_start(input, core)
    } else if plen >= 1 && *slice_index_get(pattern, plen - 1) == '$' {
        let core = slice_subrange(pattern, 0, plen - 1);
        let ilen = input.len();
        let begin = if core.len() <= ilen {
            ilen - core.len()
        } else {
            0
        };
        let tail = slice_subrange(input, begin, ilen);
        proof {
            assert(tail@ =~= input@.skip(begin as int));
        }
        match_from_start(tail, core)
    } else {
        let ilen = input.len();
        let mut k: usize = 0;
        proof {
            assert(input@.skip(0) =~= input@);
        }
        loop
            invariant
                k <= ilen,
                ilen == input@.len(),
                spec_matches(input@, pattern@) == spec_try_offsets(input@, pattern@, k as int),
            decreases ilen - k,
        {
            let sub = slice_subrange(input, k, ilen);
            proof {
                assert(sub@ =~= input@.skip(k as int));
            }
            match match_from_start(sub, pattern) {
                Err(e) => {
                    return Err(e);
                },
                Ok(true) => {
                    return Ok(true);
                },
                Ok(false) => {
                    if k == ilen {
                        return Ok(false);
                    }
                    k = k + 1;
                },
            }
        }
    }
}

/// Alternation expansion, used when the pattern contains `|`.
///
/// The group body sits between the first `(` and the first `)` after it;
/// a missing bracket is a structural error. Each `|`-separated
/// alternative is substituted into the full pattern in source order and
/// the substituted pattern is evaluated from the top; the first success
/// wins.
pub fn match_alternation(input: &[char], pattern: &[char]) -> (r: Result<bool, ParseError>)
    ensures
        r == spec_match_alternation(input@, pattern@),
    decreases pattern@.len(), 0int,
{
    let plen = pattern.len();
    let start = find_char(pattern, '(');
    if start == plen {
        return Err(ParseError::MissingAlternationGroup);
    }
    proof {
        lemma_find_idx(pattern@, '(');
    }
    let suf = slice_subrange(pattern, start, plen);
    proof {
        assert(suf@ =~= pattern@.skip(start as int));
    }
    let rel = find_char(suf, ')');
    if rel == suf.len() {
        return Err(ParseError::MissingAlternationGroup);
    }
    proof {
        lemma_find_idx(pattern@.skip(start as int), ')');
    }
    let close = start + rel;
    let ghost prefix = pattern@.subrange(0, start as int);
    let ghost suffix = pattern@.skip(close + 1);
    let mut seg_lo: usize = start + 1;
    loop
        invariant
            start < seg_lo <= close < plen,
            plen == pattern@.len(),
            prefix == pattern@.subrange(0, start as int),
            suffix == pattern@.skip(close + 1),
            spec_match_alternation(input@, pattern@) == spec_try_alts(
                input@,
                prefix,
                pattern@.subrange(seg_lo as int, close as int),
                suffix,
            ),
        decreases close - seg_lo,
    {
        let ghost body = pattern@.subrange(seg_lo as int, close as int);
        let bodyslice = slice_subrange(pattern, seg_lo, close);
        let rel2 = find_char(bodyslice, '|');
        proof {
            lemma_find_idx(body, '|');
        }
        let seg_hi = seg_lo + rel2;
        let mut candidate: Vec<char> = Vec::new();
        push_range(&mut candidate, pattern, 0, start);
        push_range(&mut candidate, pattern, seg_lo, seg_hi);
        push_range(&mut candidate, pattern, close + 1, plen);
        let ghost seg = if find_idx(body, '|') < body.len() {
            body.subrange(0, find_idx(body, '|'))
        } else {
            body
        };
        proof {
            assert(candidate@ =~= prefix + seg + suffix);
            assert(candidate@.len() < pattern@.len());
        }
        match match_pattern(input, candidate.as_slice()) {
            Err(e) => {
                return Err(e);
            },
            Ok(true) => {
                return Ok(true);
            },
            Ok(false) => {
                if rel2 == bodyslice.len() {
                    return Ok(false);
                }
                proof {
                    assert(body.skip(rel2 + 1) =~= pattern@.subrange(seg_hi + 1, close as int));
                }
                seg_lo = seg_hi + 1;
            },
        }
    }
}

} // verus!
