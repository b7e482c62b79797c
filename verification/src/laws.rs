//! General properties of the quoting and unquoting transformations.

use vstd::prelude::*;

use crate::kicad_quoter::CharClass;
use crate::kicad_quoter::anchor_end;
use crate::kicad_quoter::has_placeholder;
use crate::kicad_quoter::is_ws;
use crate::kicad_quoter::keyword_end;
use crate::kicad_quoter::lemma_quote_match_bounds;
use crate::kicad_quoter::lemma_anchor_end_agree;
use crate::kicad_quoter::lemma_run_end;
use crate::kicad_quoter::lemma_run_end_is;
use crate::kicad_quoter::placeholder_at;
use crate::kicad_quoter::quote_from;
use crate::kicad_quoter::quote_match_at;
use crate::kicad_quoter::quote_spec;
use crate::kicad_quoter::run_end;
use crate::kicad_quoter::unquote_from;
use crate::kicad_quoter::unquote_match_at;
use crate::kicad_quoter::unquote_spec;

verus! {

/// A suffix in which nothing matches is kept as it is by `quote`.
proof fn lemma_quote_from_identity(s: Seq<char>, i: int)
    requires
        0 <= i <= s.len(),
        forall|j: int| i <= j < s.len() ==> #[trigger] quote_match_at(s, j) is None,
    ensures
        quote_from(s, i) == s.subrange(i, s.len() as int),
    decreases s.len() - i,
{
    if i < s.len() {
        lemma_quote_from_identity(s, i + 1);
        assert(quote_from(s, i) =~= s.subrange(i, s.len() as int));
    } else {
        assert(quote_from(s, i) =~= s.subrange(i, s.len() as int));
    }
}

/// A suffix in which nothing matches is kept as it is by `unquote`.
proof fn lemma_unquote_from_identity(s: Seq<char>, i: int)
    requires
        0 <= i <= s.len(),
        forall|j: int| i <= j < s.len() ==> #[trigger] unquote_match_at(s, j) is None,
    ensures
        unquote_from(s, i) == s.subrange(i, s.len() as int),
    decreases s.len() - i,
{
    if i < s.len() {
        lemma_unquote_from_identity(s, i + 1);
        assert(unquote_from(s, i) =~= s.subrange(i, s.len() as int));
    } else {
        assert(unquote_from(s, i) =~= s.subrange(i, s.len() as int));
    }
}

/// `quote` returns a line with no match unchanged.
pub proof fn lemma_quote_identity(s: Seq<char>)
    requires
        forall|j: int| 0 <= j < s.len() ==> #[trigger] quote_match_at(s, j) is None,
    ensures
        quote_spec(s) == s,
{
    lemma_quote_from_identity(s, 0);
    assert(s.subrange(0, s.len() as int) =~= s);
}

/// `unquote` returns a line with no match unchanged.
pub proof fn lemma_unquote_identity(s: Seq<char>)
    requires
        forall|j: int| 0 <= j < s.len() ==> #[trigger] unquote_match_at(s, j) is None,
    ensures
        unquote_spec(s) == s,
{
    lemma_unquote_from_identity(s, 0);
    assert(s.subrange(0, s.len() as int) =~= s);
}

/// Non-interference: on a line without any eligible Field Keyword occurrence
/// (no anchor: no opening parenthesis with a Field Keyword and whitespace
/// after it), both `quote` and `unquote` return the input unchanged.
pub proof fn lemma_noninterference(s: Seq<char>)
    requires
        forall|j: int| 0 <= j < s.len() ==> #[trigger] anchor_end(s, j) is None,
    ensures
        quote_spec(s) == s,
        unquote_spec(s) == s,
{
    assert forall|j: int| 0 <= j < s.len() implies #[trigger] quote_match_at(s, j) is None by {
        assert(anchor_end(s, j) is None);
    }
    assert forall|j: int| 0 <= j < s.len() implies #[trigger] unquote_match_at(s, j) is None by {
        assert(anchor_end(s, j) is None);
    }
    lemma_quote_identity(s);
    lemma_unquote_identity(s);
}

/// A line without any Field Keyword occurrence at all has no anchor, so
/// neither transformation touches it.
pub proof fn lemma_no_keyword_noninterference(s: Seq<char>)
    requires
        forall|j: int| 0 <= j < s.len() ==> #[trigger] keyword_end(s, j) is None,
    ensures
        quote_spec(s) == s,
        unquote_spec(s) == s,
{
    assert forall|j: int| 0 <= j < s.len() implies #[trigger] anchor_end(s, j) is None by {
        assert(keyword_end(s, j) is None);
    }
    lemma_noninterference(s);
}

/// No-op when ineligible: `quote` returns a line unchanged when, after every
/// anchor, the token is already quote-delimited or holds no placeholder.
pub proof fn lemma_quote_noop_when_ineligible(s: Seq<char>)
    requires
        forall|j: int| 0 <= j < s.len() ==> (#[trigger] anchor_end(s, j) matches Some(t0) ==> ((t0
            < s.len() && s[t0] == '"') || !has_placeholder(s, t0, run_end(s, t0, CharClass::Token)))),
    ensures
        quote_spec(s) == s,
{
    assert forall|j: int| 0 <= j < s.len() implies #[trigger] quote_match_at(s, j) is None by {
        if let Some(t0) = anchor_end(s, j) {
            if t0 < s.len() && s[t0] == '"' {
                assert(run_end(s, t0, CharClass::Token) == t0);
                assert(!has_placeholder(s, t0, t0)) by {
                    if has_placeholder(s, t0, t0) {
                        let p = choose|p: int| t0 <= p && #[trigger] placeholder_at(s, p, t0);
                        assert(p + 2 <= t0);
                    }
                }
            }
        }
    }
    lemma_quote_identity(s);
}

/// Whatever `quote` wraps is a single whitespace-free token without a quote
/// character: the wrapped span can never hold an internal space.
pub proof fn lemma_quote_wraps_plain_token(s: Seq<char>, i: int, t0: int, t1: int)
    requires
        quote_match_at(s, i) == Some((t0, t1)),
    ensures
        0 <= i < t0 < t1 <= s.len(),
        forall|k: int| t0 <= k < t1 ==> !is_ws(#[trigger] s[k]) && s[k] != '"',
{
    lemma_quote_match_bounds(s, i, t0, t1);
    lemma_run_end(s, t0, CharClass::Token);
}

/// Whitespace blocks unquoting: a quoted token whose content holds a
/// whitespace character before its closing quote is never unquoted.
pub proof fn lemma_unquote_blocked_by_whitespace(s: Seq<char>, i: int, q: int, j: int, c: int)
    requires
        anchor_end(s, i) == Some(q),
        q < s.len(),
        s[q] == '"',
        q < j < c < s.len(),
        is_ws(s[j]),
        s[c] == '"',
        forall|k: int| q < k < c ==> s[k] != '"',
    ensures
        unquote_match_at(s, i) is None,
{
    let t1 = run_end(s, q + 1, CharClass::Plain);
    lemma_run_end(s, q + 1, CharClass::Plain);
    if t1 > j {
        assert(!is_ws(s[j]));
    }
    assert(t1 <= j);
}

/// Trailing-position asymmetry, blocked side: a quoted token whose closing
/// quote is followed only by whitespace up to the end of the line is not
/// unquoted.
pub proof fn lemma_unquote_trailing_asymmetry(s: Seq<char>, i: int, q: int, t1: int)
    requires
        anchor_end(s, i) == Some(q),
        q < s.len(),
        s[q] == '"',
        t1 == run_end(s, q + 1, CharClass::Plain),
        t1 > q + 1,
        t1 < s.len(),
        s[t1] == '"',
        run_end(s, t1 + 1, CharClass::Ws) == s.len(),
    ensures
        unquote_match_at(s, i) is None,
{
}

/// Reversibility of one wrap: on the line with the matched Field Token
/// wrapped in double quotes, `unquote` recognizes exactly the wrapped token
/// at the same anchor — provided the token holds no backslash and whitespace
/// and a parenthesis follow it — and removing the two added quotes restores
/// the original text up to and including that parenthesis.
pub proof fn lemma_quote_match_reversible(s: Seq<char>, i: int, t0: int, t1: int)
    requires
        quote_match_at(s, i) == Some((t0, t1)),
        forall|k: int| t0 <= k < t1 ==> #[trigger] s[k] != '\\',
        run_end(s, t1, CharClass::Ws) > t1,
        run_end(s, t1, CharClass::Ws) < s.len(),
        s[run_end(s, t1, CharClass::Ws)] == '(' || s[run_end(s, t1, CharClass::Ws)] == ')',
    ensures
        ({
            let s2 = s.subrange(0, t0) + seq!['"'] + s.subrange(t0, t1) + seq!['"'] + s.subrange(
                t1,
                s.len() as int,
            );
            let p = run_end(s, t1, CharClass::Ws);
            unquote_match_at(s2, i) == Some((t0, t1 + 1, p + 3)) && s2.subrange(i, t0)
                + s2.subrange(t0 + 1, t1 + 1) + s2.subrange(t1 + 2, p + 3) == s.subrange(i, p + 1)
        }),
{
    let s2 = s.subrange(0, t0) + seq!['"'] + s.subrange(t0, t1) + seq!['"'] + s.subrange(
        t1,
        s.len() as int,
    );
    let p = run_end(s, t1, CharClass::Ws);
    lemma_quote_match_bounds(s, i, t0, t1);
    lemma_run_end(s, t0, CharClass::Token);
    lemma_run_end(s, t1, CharClass::Ws);
    assert(s2.len() == s.len() + 2);
    assert(forall|k: int| 0 <= k < t0 ==> #[trigger] s2[k] == s[k]);
    assert(s2[t0 as int] == '"');
    assert(forall|k: int| t0 < k <= t1 ==> #[trigger] s2[k] == s[k - 1]);
    assert(s2[t1 + 1] == '"');
    assert(forall|k: int| t1 + 1 < k < s2.len() ==> #[trigger] s2[k] == s[k - 2]);
    lemma_anchor_end_agree(s, s2, i, t0);
    lemma_run_end_is(s2, t0 + 1, t1 + 1, CharClass::Plain);
    lemma_run_end_is(s2, t1 + 2, p + 2, CharClass::Ws);
    assert(unquote_match_at(s2, i) == Some((t0, t1 + 1, p + 3)));
    assert(s2.subrange(i, t0) + s2.subrange(t0 + 1, t1 + 1) + s2.subrange(t1 + 2, p + 3)
        =~= s.subrange(i, p + 1));
}

/// Trailing-position asymmetry, matching side: the same quoted token with
/// whitespace and a parenthesis after its closing quote is unquoted.
pub proof fn lemma_unquote_matches_mid_line(s: Seq<char>, i: int, q: int, t1: int, p: int)
    requires
        anchor_end(s, i) == Some(q),
        q < s.len(),
        s[q] == '"',
        t1 == run_end(s, q + 1, CharClass::Plain),
        t1 > q + 1,
        t1 < s.len(),
        s[t1] == '"',
        p == run_end(s, t1 + 1, CharClass::Ws),
        p > t1 + 1,
        p < s.len(),
        s[p] == '(' || s[p] == ')',
    ensures
        unquote_match_at(s, i) == Some((q, t1, p + 1)),
{
}

} // verus!
