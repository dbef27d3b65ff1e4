//! The mathematical model of the engine: what a pattern means.
//!
//! Every function here is a pure specification over `Seq<char>`. The
//! executable engine proves that it returns exactly what these functions
//! say, so this module is the single place where the matching rules are
//! written down.

use vstd::prelude::*;

verus! {

/// A structural defect in a pattern, discovered lazily while scanning.
///
/// A failed match is an ordinary `false`; these errors are reserved for
/// patterns that are themselves malformed.
#[derive(Clone, Copy, Debug, PartialEq, Eq, Structural)]
pub enum ParseError {
    /// The pattern ends with an escape marker `\` and nothing after it.
    TruncatedEscape,
    /// A `[` has no matching `]`.
    UnterminatedClass,
    /// A `|` is present with no enclosing, properly closed `(...)` group.
    MissingAlternationGroup,
}

/// An ASCII digit, `0` through `9`.
pub open spec fn is_digit_char(c: char) -> bool {
    '0' <= c && c <= '9'
}

/// An ASCII alphanumeric character. Deliberately excludes `_`, unlike the
/// common regex convention for `\w`.
pub open spec fn is_word_char(c: char) -> bool {
    is_digit_char(c) || ('a' <= c && c <= 'z') || ('A' <= c && c <= 'Z')
}

/// Index of the first occurrence of `c` in `s`, or `s.len()` if `c` does
/// not occur.
pub open spec fn find_idx(s: Seq<char>, c: char) -> int
    decreases s.len(),
{
    if s.len() == 0 {
        0
    } else if s[0] == c {
        0
    } else {
        1 + find_idx(s.skip(1), c)
    }
}

/// `find_idx` is in range, points at `c` when `c` occurs, and nothing
/// before it is `c`.
pub proof fn lemma_find_idx(s: Seq<char>, c: char)
    ensures
        0 <= find_idx(s, c) <= s.len(),
        forall|j: int| 0 <= j < find_idx(s, c) ==> s[j] != c,
        find_idx(s, c) < s.len() ==> s[find_idx(s, c)] == c,
    decreases s.len(),
{
    if s.len() > 0 && s[0] != c {
        lemma_find_idx(s.skip(1), c);
        assert forall|j: int| 0 <= j < find_idx(s, c) implies s[j] != c by {
            if j > 0 {
                assert(s.skip(1)[j - 1] == s[j]);
            }
        }
        if find_idx(s, c) < s.len() {
            assert(s.skip(1)[find_idx(s, c) - 1] == s[find_idx(s, c)]);
        }
    }
}

/// If `s[i]` is the first occurrence of `c`, then `find_idx` returns `i`.
pub proof fn lemma_find_idx_is_first(s: Seq<char>, c: char, i: int)
    requires
        0 <= i < s.len(),
        s[i] == c,
        forall|j: int| 0 <= j < i ==> s[j] != c,
    ensures
        find_idx(s, c) == i,
{
    lemma_find_idx(s, c);
}

/// If `c` occurs nowhere in `s`, then `find_idx` returns `s.len()`.
pub proof fn lemma_find_idx_absent(s: Seq<char>, c: char)
    requires
        forall|j: int| 0 <= j < s.len() ==> s[j] != c,
    ensures
        find_idx(s, c) == s.len(),
{
    lemma_find_idx(s, c);
}

/// `c` occurs in `s` exactly when `find_idx` lands inside `s`.
pub proof fn lemma_find_idx_contains(s: Seq<char>, c: char)
    ensures
        s.contains(c) <==> find_idx(s, c) < s.len(),
{
    lemma_find_idx(s, c);
    if find_idx(s, c) == s.len() {
        assert(forall|j: int| 0 <= j < s.len() ==> s[j] != c);
    }
}

/// Whether one character satisfies one atom, the atom given as its
/// textual span.
///
/// - `\d` accepts ASCII digits; `\w` accepts ASCII alphanumerics; any
///   other escaped character is a literal.
/// - `.` accepts every character.
/// - `[...]` accepts the listed members; `[^...]` accepts everything but
///   the listed members.
/// - A single character accepts exactly itself.
pub open spec fn spec_match_char(atom: Seq<char>, c: char) -> bool {
    if atom.len() == 2 && atom[0] == '\\' {
        if atom[1] == 'd' {
            is_digit_char(c)
        } else if atom[1] == 'w' {
            is_word_char(c)
        } else {
            c == atom[1]
        }
    } else if atom.len() >= 3 && atom[0] == '[' && atom[1] == '^' {
        !atom.subrange(2, atom.len() - 1).contains(c)
    } else if atom.len() >= 2 && atom[0] == '[' {
        atom.subrange(1, atom.len() - 1).contains(c)
    } else {
        atom.len() == 1 && (atom[0] == '.' || atom[0] == c)
    }
}

/// How many pattern characters the next atom spans: 2 for an escape,
/// through the closing `]` for a bracket set, 1 otherwise. A truncated
/// escape or an unterminated bracket set is a parse error.
pub open spec fn spec_parse_atom(pat: Seq<char>) -> Result<int, ParseError>
    recommends
        pat.len() > 0,
{
    if pat.len() > 0 && pat[0] == '\\' {
        if pat.len() < 2 {
            Err(ParseError::TruncatedEscape)
        } else {
            Ok(2)
        }
    } else if pat.len() > 0 && pat[0] == '[' {
        if find_idx(pat, ']') < pat.len() {
            Ok(find_idx(pat, ']') + 1)
        } else {
            Err(ParseError::UnterminatedClass)
        }
    } else {
        Ok(1)
    }
}

/// A successfully parsed atom spans at least one and at most all of the
/// remaining pattern characters.
pub proof fn lemma_parse_atom_len(pat: Seq<char>)
    requires
        pat.len() > 0,
    ensures
        spec_parse_atom(pat) matches Ok(alen) ==> 1 <= alen <= pat.len(),
{
    lemma_find_idx(pat, ']');
}

/// Length of the maximal prefix of `input` whose characters all satisfy
/// `atom`: how far a greedy `+` reaches.
pub open spec fn spec_run_len(input: Seq<char>, atom: Seq<char>) -> int
    decreases input.len(),
{
    if input.len() == 0 || !spec_match_char(atom, input[0]) {
        0
    } else {
        1 + spec_run_len(input.skip(1), atom)
    }
}

/// The greedy run is in range, all of it satisfies the atom, and it stops
/// only at the end of the input or at the first mismatch.
pub proof fn lemma_run_len(input: Seq<char>, atom: Seq<char>)
    ensures
        0 <= spec_run_len(input, atom) <= input.len(),
        forall|j: int| 0 <= j < spec_run_len(input, atom) ==> spec_match_char(atom, input[j]),
        spec_run_len(input, atom) < input.len() ==> !spec_match_char(
            atom,
            input[spec_run_len(input, atom)],
        ),
    decreases input.len(),
{
    if input.len() > 0 && spec_match_char(atom, input[0]) {
        lemma_run_len(input.skip(1), atom);
        assert forall|j: int| 0 <= j < spec_run_len(input, atom) implies spec_match_char(
            atom,
            input[j],
        ) by {
            if j > 0 {
                assert(input.skip(1)[j - 1] == input[j]);
            }
        }
        if spec_run_len(input, atom) < input.len() {
            assert(input.skip(1)[spec_run_len(input, atom) - 1]
                == input[spec_run_len(input, atom)]);
        }
    }
}

/// If the first `k` characters satisfy the atom and the run stops there,
/// then `k` is the greedy run length.
pub proof fn lemma_run_len_is(input: Seq<char>, atom: Seq<char>, k: int)
    requires
        0 <= k <= input.len(),
        forall|j: int| 0 <= j < k ==> spec_match_char(atom, input[j]),
        k == input.len() || !spec_match_char(atom, input[k]),
    ensures
        spec_run_len(input, atom) == k,
{
    lemma_run_len(input, atom);
}

/// Matching the whole of `pat` against a prefix of `input`, both read
/// from their starts.
///
/// Atoms are taken off the front of the pattern one at a time; the
/// character right after an atom's span decides its quantifier. The loop
/// over atoms stops when the pattern is exhausted (a match) or when the
/// input is exhausted first (a failure, even if the leftover pattern
/// could be satisfied by zero characters — a deliberate rule of this
/// engine). A structural defect in the pattern is reported as an error
/// only when scanning actually reaches it.
pub open spec fn spec_match_from_start(input: Seq<char>, pat: Seq<char>) -> Result<
    bool,
    ParseError,
>
    decreases pat.len(),
{
    if pat.len() == 0 {
        Ok(true)
    } else if input.len() == 0 {
        Ok(false)
    } else {
        match spec_parse_atom(pat) {
            Err(e) => Err(e),
            Ok(alen) => {
                proof {
                    lemma_parse_atom_len(pat);
                }
                let atom = pat.subrange(0, alen);
                let rest = pat.skip(alen);
                if rest.len() > 0 && rest[0] == '+' {
                    if spec_match_char(atom, input[0]) {
                        spec_match_from_start(input.skip(spec_run_len(input, atom)), rest.skip(1))
                    } else {
                        Ok(false)
                    }
                } else if rest.len() > 0 && rest[0] == '?' {
                    if spec_match_char(atom, input[0]) {
                        spec_match_from_start(input.skip(1), rest.skip(1))
                    } else {
                        spec_match_from_start(input, rest.skip(1))
                    }
                } else {
                    if spec_match_char(atom, input[0]) {
                        spec_match_from_start(input.skip(1), rest)
                    } else {
                        Ok(false)
                    }
                }
            },
        }
    }
}

/// The unanchored scan: try `spec_match_from_start` at every offset from
/// `k` through `input.len()`, in increasing order, stopping at the first
/// success or the first structural error.
pub open spec fn spec_try_offsets(input: Seq<char>, pat: Seq<char>, k: int) -> Result<
    bool,
    ParseError,
>
    decreases input.len() - k,
{
    if !(0 <= k <= input.len()) {
        Ok(false)
    } else {
        match spec_match_from_start(input.skip(k), pat) {
            Err(e) => Err(e),
            Ok(true) => Ok(true),
            Ok(false) => {
                if k == input.len() {
                    Ok(false)
                } else {
                    spec_try_offsets(input, pat, k + 1)
                }
            },
        }
    }
}

/// What a whole pattern means against a whole input line.
///
/// A pattern containing `|` is handled by alternation expansion. Otherwise
/// the anchors decide the search window: `^...$` demands an exact-length
/// match, `^` fixes the start, `$` fixes the end, and an unanchored
/// pattern is tried at every start offset.
pub open spec fn spec_matches(input: Seq<char>, pat: Seq<char>) -> Result<bool, ParseError>
    decreases pat.len(), 3int,
{
    if pat.contains('|') {
        spec_match_alternation(input, pat)
    } else if pat.len() > 0 && pat[0] == '^' && pat[pat.len() - 1] == '$' {
        let core = pat.subrange(1, pat.len() - 1);
        if input.len() == core.len() {
            spec_match_from_start(input, core)
        } else {
            Ok(false)
        }
    } else if pat.len() > 0 && pat[0] == '^' {
        spec_match_from_start(input, pat.skip(1))
    } else if pat.len() > 0 && pat[pat.len() - 1] == '$' {
        let core = pat.subrange(0, pat.len() - 1);
        let start = if core.len() <= input.len() {
            input.len() - core.len()
        } else {
            0
        };
        spec_match_from_start(input.skip(start), core)
    } else {
        spec_try_offsets(input, pat, 0)
    }
}

/// Alternation expansion, used when the pattern contains `|`.
///
/// The group body sits between the first `(` and the first `)` after it;
/// a missing bracket is a structural error. The body is split on `|` and
/// each alternative is substituted into the full pattern in source order;
/// the first substituted pattern that matches wins.
pub open spec fn spec_match_alternation(input: Seq<char>, pat: Seq<char>) -> Result<
    bool,
    ParseError,
>
    decreases pat.len(), 2int,
{
    let start = find_idx(pat, '(');
    if start < pat.len() {
        let rel = find_idx(pat.skip(start), ')');
        if rel < pat.len() - start {
            proof {
                lemma_find_idx(pat, '(');
                lemma_find_idx(pat.skip(start), ')');
            }
            let close = start + rel;
            spec_try_alts(
                input,
                pat.subrange(0, start),
                pat.subrange(start + 1, close),
                pat.skip(close + 1),
            )
        } else {
            Err(ParseError::MissingAlternationGroup)
        }
    } else {
        Err(ParseError::MissingAlternationGroup)
    }
}

/// Try each `|`-separated alternative of `body` in order, substituted
/// between `prefix` and `suffix`, and report the first success. An error
/// raised by a substituted pattern stops the search.
pub open spec fn spec_try_alts(
    input: Seq<char>,
    prefix: Seq<char>,
    body: Seq<char>,
    suffix: Seq<char>,
) -> Result<bool, ParseError>
    decreases prefix.len() + body.len() + suffix.len() + 2, 1int,
{
    proof {
        lemma_find_idx(body, '|');
    }
    let i = find_idx(body, '|');
    let seg = if i < body.len() {
        body.subrange(0, i)
    } else {
        body
    };
    match spec_matches(input, prefix + seg + suffix) {
        Err(e) => Err(e),
        Ok(true) => Ok(true),
        Ok(false) => {
            if i < body.len() {
                spec_try_alts(input, prefix, body.skip(i + 1), suffix)
            } else {
                Ok(false)
            }
        },
    }
}

} // verus!
