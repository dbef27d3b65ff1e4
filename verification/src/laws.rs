//! General properties of the matching semantics, proved once and for
//! all inputs.

use vstd::prelude::*;

use crate::semantics::ParseError;
use crate::semantics::spec_match_char;
use crate::semantics::spec_match_from_start;
use crate::semantics::spec_matches;
use crate::semantics::spec_parse_atom;
use crate::semantics::spec_try_offsets;

verus! {

/// A character with a syntactic role somewhere in the pattern grammar.
/// A pattern free of these is a plain literal string.
pub open spec fn is_metachar(c: char) -> bool {
    c == '\\' || c == '[' || c == ']' || c == '.' || c == '+' || c == '?' || c == '|' || c == '('
        || c == ')' || c == '^' || c == '$'
}

/// A plain pattern, matched from the start against itself, succeeds: each
/// character is a literal atom that consumes exactly itself.
proof fn lemma_plain_self_match_from_start(p: Seq<char>)
    requires
        forall|i: int| 0 <= i < p.len() ==> !is_metachar(p[i]),
    ensures
        spec_match_from_start(p, p) == Ok::<bool, ParseError>(true),
    decreases p.len(),
{
    if p.len() > 0 {
        assert(!is_metachar(p[0]));
        assert(spec_parse_atom(p) == Ok::<int, ParseError>(1));
        let atom = p.subrange(0, 1);
        let rest = p.skip(1);
        assert(atom[0] == p[0]);
        assert(spec_match_char(atom, p[0]));
        if rest.len() > 0 {
            assert(rest[0] == p[1]);
            assert(!is_metachar(rest[0]));
        }
        assert forall|i: int| 0 <= i < rest.len() implies !is_metachar(rest[i]) by {
            assert(rest[i] == p[i + 1]);
        }
        lemma_plain_self_match_from_start(rest);
        assert(spec_match_from_start(p, p) == spec_match_from_start(p.skip(1), rest));
    }
}

/// The shape of a fully anchored plain pattern `^p$`: it holds no `|`,
/// starts with `^`, ends with `$`, and its core is `p` itself.
proof fn lemma_anchored_plain_shape(p: Seq<char>)
    requires
        forall|i: int| 0 <= i < p.len() ==> !is_metachar(p[i]),
    ensures
        !(seq!['^'] + p + seq!['$']).contains('|'),
        (seq!['^'] + p + seq!['$']).len() == p.len() + 2,
        (seq!['^'] + p + seq!['$'])[0] == '^',
        (seq!['^'] + p + seq!['$'])[p.len() + 1int] == '$',
        (seq!['^'] + p + seq!['$']).subrange(1, p.len() + 1int) == p,
{
    let q = seq!['^'] + p + seq!['$'];
    assert(q[0] == '^');
    assert(q[p.len() + 1int] == '$');
    assert forall|i: int| 0 <= i < q.len() implies q[i] != '|' by {
        if 1 <= i < p.len() + 1 {
            assert(q[i] == p[i - 1]);
            assert(!is_metachar(p[i - 1]));
        }
    }
    assert(q.subrange(1, p.len() + 1int) =~= p);
}

/// Exact literal self-match: for a pattern `p` containing no
/// metacharacters, `p` itself matches `^p$`, and `p` with any one
/// character appended does not — the anchors demand the exact length.
pub proof fn lemma_exact_literal_self_match(p: Seq<char>, extra: char)
    requires
        forall|i: int| 0 <= i < p.len() ==> !is_metachar(p[i]),
    ensures
        spec_matches(p, seq!['^'] + p + seq!['$']) == Ok::<bool, ParseError>(true),
        spec_matches(p + seq![extra], seq!['^'] + p + seq!['$']) == Ok::<bool, ParseError>(false),
{
    let q = seq!['^'] + p + seq!['$'];
    lemma_anchored_plain_shape(p);
    lemma_plain_self_match_from_start(p);
    assert(spec_matches(p, q) == spec_match_from_start(p, q.subrange(1, p.len() + 1int)));
    assert((p + seq![extra]).len() != q.subrange(1, p.len() + 1int).len());
}

/// A bare wildcard pattern demands exactly one character: on inputs of
/// length at most one, `.` matches exactly the one-character inputs.
pub proof fn lemma_wildcard_single(input: Seq<char>)
    requires
        input.len() <= 1,
    ensures
        spec_matches(input, seq!['.']) == Ok::<bool, ParseError>(input.len() == 1),
{
    let pat = seq!['.'];
    assert(pat[0] == '.');
    assert forall|i: int| 0 <= i < pat.len() implies pat[i] != '|' by {}
    assert(!pat.contains('|'));
    assert(input.skip(0) =~= input);
    if input.len() == 0 {
        assert(spec_match_from_start(input, pat) == Ok::<bool, ParseError>(false));
        assert(spec_try_offsets(input, pat, 0) == Ok::<bool, ParseError>(false));
    } else {
        assert(spec_parse_atom(pat) == Ok::<int, ParseError>(1));
        let atom = pat.subrange(0, 1);
        let rest = pat.skip(1);
        assert(atom[0] == '.');
        assert(spec_match_char(atom, input[0]));
        assert(rest.len() == 0);
        assert(spec_match_from_start(input.skip(1), rest) == Ok::<bool, ParseError>(true));
        assert(spec_match_from_start(input, pat) == Ok::<bool, ParseError>(true));
        assert(spec_try_offsets(input, pat, 0) == Ok::<bool, ParseError>(true));
    }
}

/// The empty pattern matches any input, including the empty one: zero
/// atoms are required, so the unanchored scan succeeds at offset zero.
pub proof fn lemma_empty_pattern_matches(input: Seq<char>)
    ensures
        spec_matches(input, Seq::<char>::empty()) == Ok::<bool, ParseError>(true),
{
    let pat = Seq::<char>::empty();
    assert(!pat.contains('|'));
    assert(input.skip(0) =~= input);
    assert(spec_match_from_start(input, pat) == Ok::<bool, ParseError>(true));
    assert(spec_try_offsets(input, pat, 0) == Ok::<bool, ParseError>(true));
}

} // verus!
