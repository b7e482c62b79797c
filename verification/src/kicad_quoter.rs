//! The quoting and unquoting transformations for KiCad PCB text fields.
//!
//! Both transformations scan a line for an *anchor*: an opening parenthesis,
//! a Field Keyword (the graphic-text marker `gr_text`, or the footprint-text
//! marker `fp_text` followed by one lowercase qualifier word), and at least
//! one whitespace character. `quote` wraps the Field Token after an anchor in
//! double quotes when the token holds a `${NAME}` placeholder and no quote
//! character; `unquote` removes the quotes around a simple token after an
//! anchor, but only when whitespace and a parenthesis follow the closing
//! quote.

use vstd::prelude::*;

verus! {

use vstd::string::StrSliceExecFns;
use vstd::string::StringExecFns;

/// Whitespace as the patterns understand it: the Unicode `White_Space`
/// characters.
pub open spec fn is_ws(c: char) -> bool {
    ||| c == '\u{0009}'
    ||| c == '\u{000A}'
    ||| c == '\u{000B}'
    ||| c == '\u{000C}'
    ||| c == '\u{000D}'
    ||| c == ' '
    ||| c == '\u{0085}'
    ||| c == '\u{00A0}'
    ||| c == '\u{1680}'
    ||| ('\u{2000}' <= c && c <= '\u{200A}')
    ||| c == '\u{2028}'
    ||| c == '\u{2029}'
    ||| c == '\u{202F}'
    ||| c == '\u{205F}'
    ||| c == '\u{3000}'
}

/// A lowercase letter, as allowed in the qualifier word after the
/// footprint-text marker.
pub open spec fn is_lower(c: char) -> bool {
    'a' <= c && c <= 'z'
}

/// A character allowed in a placeholder name: letters, digits, hyphen,
/// underscore.
pub open spec fn is_name_char(c: char) -> bool {
    ||| c == '-'
    ||| c == '_'
    ||| ('0' <= c && c <= '9')
    ||| ('a' <= c && c <= 'z')
    ||| ('A' <= c && c <= 'Z')
}

/// A character allowed inside a Field Token that `quote` wraps: anything but
/// whitespace and the double quote.
pub open spec fn is_token_char(c: char) -> bool {
    !is_ws(c) && c != '"'
}

/// A character allowed inside a quoted token that `unquote` strips: anything
/// but whitespace, the double quote, and the backslash.
pub open spec fn is_plain_char(c: char) -> bool {
    !is_ws(c) && c != '"' && c != '\\'
}

/// The character classes the scanner works with.
#[derive(Clone, Copy)]
pub enum CharClass {
    /// Whitespace.
    Ws,
    /// Lowercase letters.
    Lower,
    /// Placeholder-name characters.
    Name,
    /// Field-Token characters (`quote`).
    Token,
    /// Plain quoted-token characters (`unquote`).
    Plain,
}

/// Whether `c` belongs to the class `cc`.
pub open spec fn in_class(cc: CharClass, c: char) -> bool {
    match cc {
        CharClass::Ws => is_ws(c),
        CharClass::Lower => is_lower(c),
        CharClass::Name => is_name_char(c),
        CharClass::Token => is_token_char(c),
        CharClass::Plain => is_plain_char(c),
    }
}

/// Executable test for [`is_ws`].
fn is_ws_exec(c: char) -> (r: bool)
    ensures
        r == is_ws(c),
{
    c == '\u{0009}' || c == '\u{000A}' || c == '\u{000B}' || c == '\u{000C}' || c == '\u{000D}'
        || c == ' ' || c == '\u{0085}' || c == '\u{00A0}' || c == '\u{1680}' || ('\u{2000}' <= c
        && c <= '\u{200A}') || c == '\u{2028}' || c == '\u{2029}' || c == '\u{202F}' || c
        == '\u{205F}' || c == '\u{3000}'
}

/// Executable test for [`in_class`].
fn in_class_exec(cc: CharClass, c: char) -> (r: bool)
    ensures
        r == in_class(cc, c),
{
    match cc {
        CharClass::Ws => is_ws_exec(c),
        CharClass::Lower => 'a' <= c && c <= 'z',
        CharClass::Name => c == '-' || c == '_' || ('0' <= c && c <= '9') || ('a' <= c && c <= 'z')
            || ('A' <= c && c <= 'Z'),
        CharClass::Token => !is_ws_exec(c) && c != '"',
        CharClass::Plain => !is_ws_exec(c) && c != '"' && c != '\\',
    }
}

/// The first index at or after `i` whose character is not in `cc`, or the end
/// of `s`: the maximal run of `cc`-characters beginning at `i` ends there.
pub open spec fn run_end(s: Seq<char>, i: int, cc: CharClass) -> int
    decreases s.len() - i,
{
    if 0 <= i < s.len() && in_class(cc, s[i]) {
        run_end(s, i + 1, cc)
    } else {
        i
    }
}

/// The run that [`run_end`] delimits consists of `cc`-characters and is
/// maximal.
pub proof fn lemma_run_end(s: Seq<char>, i: int, cc: CharClass)
    requires
        0 <= i <= s.len(),
    ensures
        i <= run_end(s, i, cc) <= s.len(),
        forall|k: int| i <= k < run_end(s, i, cc) ==> in_class(cc, s[k]),
        run_end(s, i, cc) < s.len() ==> !in_class(cc, s[run_end(s, i, cc)]),
    decreases s.len() - i,
{
    if 0 <= i < s.len() && in_class(cc, s[i]) {
        lemma_run_end(s, i + 1, cc);
    }
}

/// A position that closes a maximal `cc`-run beginning at `i` is
/// [`run_end`]`(s, i, cc)`.
pub proof fn lemma_run_end_is(s: Seq<char>, i: int, j: int, cc: CharClass)
    requires
        0 <= i <= j <= s.len(),
        forall|k: int| i <= k < j ==> in_class(cc, s[k]),
        j < s.len() ==> !in_class(cc, s[j]),
    ensures
        run_end(s, i, cc) == j,
    decreases j - i,
{
    if i < j {
        lemma_run_end_is(s, i + 1, j, cc);
    }
}

/// Executable counterpart of [`run_end`].
fn run_end_exec(v: &Vec<char>, i: usize, cc: CharClass) -> (r: usize)
    requires
        i <= v.len(),
    ensures
        r as int == run_end(v@, i as int, cc),
        i <= r <= v.len(),
{
    let mut j = i;
    while j < v.len() && in_class_exec(cc, v[j])
        invariant
            i <= j <= v@.len(),
            forall|k: int| i <= k < j ==> in_class(cc, v@[k]),
        decreases v@.len() - j,
    {
        j = j + 1;
    }
    proof {
        lemma_run_end_is(v@, i as int, j as int, cc);
    }
    j
}

/// The end of a Field Keyword whose opening parenthesis stands at `i`:
/// either the graphic-text marker `(gr_text`, or the footprint-text marker
/// `(fp_text` followed by one whitespace run and one lowercase qualifier
/// word. `None` when no Field Keyword stands at `i`.
pub open spec fn keyword_end(s: Seq<char>, i: int) -> Option<int> {
    if 0 <= i && i + 8 <= s.len() && s[i] == '(' && s[i + 1] == 'g' && s[i + 2] == 'r' && s[i + 3]
        == '_' && s[i + 4] == 't' && s[i + 5] == 'e' && s[i + 6] == 'x' && s[i + 7] == 't' {
        Some(i + 8)
    } else if 0 <= i && i + 8 <= s.len() && s[i] == '(' && s[i + 1] == 'f' && s[i + 2] == 'p' && s[i
        + 3] == '_' && s[i + 4] == 't' && s[i + 5] == 'e' && s[i + 6] == 'x' && s[i + 7] == 't' {
        let ws = run_end(s, i + 8, CharClass::Ws);
        let qual = run_end(s, ws, CharClass::Lower);
        if ws > i + 8 && qual > ws {
            Some(qual)
        } else {
            None
        }
    } else {
        None
    }
}

/// The anchor of both patterns at `i`: an opening parenthesis, a Field
/// Keyword, and at least one whitespace character. Returns the index of the
/// first character after the whitespace run.
pub open spec fn anchor_end(s: Seq<char>, i: int) -> Option<int> {
    match keyword_end(s, i) {
        Some(k) => {
            let ws = run_end(s, k, CharClass::Ws);
            if ws > k {
                Some(ws)
            } else {
                None
            }
        },
        None => None,
    }
}

/// A keyword always ends inside the line, past its anchor position.
proof fn lemma_keyword_end_bounds(s: Seq<char>, i: int, k: int)
    requires
        keyword_end(s, i) == Some(k),
    ensures
        0 <= i,
        i + 8 <= k <= s.len(),
{
    if !(0 <= i && i + 8 <= s.len() && s[i] == '(' && s[i + 1] == 'g' && s[i + 2] == 'r' && s[i + 3]
        == '_' && s[i + 4] == 't' && s[i + 5] == 'e' && s[i + 6] == 'x' && s[i + 7] == 't') {
        lemma_run_end(s, i + 8, CharClass::Ws);
        lemma_run_end(s, run_end(s, i + 8, CharClass::Ws), CharClass::Lower);
    }
}

/// An anchor always ends inside the line, past its keyword.
proof fn lemma_anchor_end_bounds(s: Seq<char>, i: int, a: int)
    requires
        anchor_end(s, i) == Some(a),
    ensures
        0 <= i,
        i + 9 <= a <= s.len(),
{
    let k = keyword_end(s, i)->Some_0;
    lemma_keyword_end_bounds(s, i, k);
    lemma_run_end(s, k, CharClass::Ws);
}

/// Two lines that agree up to an anchor's end carry the same anchor there:
/// the anchor is decided by the characters before the token alone, given that
/// neither line resumes the whitespace run at its end.
pub proof fn lemma_anchor_end_agree(s: Seq<char>, s2: Seq<char>, i: int, t0: int)
    requires
        anchor_end(s, i) == Some(t0),
        t0 < s.len(),
        t0 < s2.len(),
        !is_ws(s2[t0]),
        forall|k: int| i <= k < t0 ==> s[k] == s2[k],
    ensures
        anchor_end(s2, i) == Some(t0),
{
    let k = keyword_end(s, i)->Some_0;
    lemma_keyword_end_bounds(s, i, k);
    lemma_run_end(s, k, CharClass::Ws);
    if s[i + 1] == 'g' {
        assert(keyword_end(s2, i) == Some(i + 8));
    } else {
        let ws1 = run_end(s, i + 8, CharClass::Ws);
        let qual = run_end(s, ws1, CharClass::Lower);
        lemma_run_end(s, i + 8, CharClass::Ws);
        lemma_run_end(s, ws1, CharClass::Lower);
        lemma_run_end_is(s2, i + 8, ws1, CharClass::Ws);
        lemma_run_end_is(s2, ws1, qual, CharClass::Lower);
        assert(keyword_end(s2, i) == Some(qual));
    }
    lemma_run_end_is(s2, k, t0, CharClass::Ws);
}

/// Executable counterpart of [`keyword_end`].
fn keyword_end_exec(v: &Vec<char>, i: usize) -> (r: Option<usize>)
    requires
        i <= v.len(),
    ensures
        match r {
            Some(k) => keyword_end(v@, i as int) == Some(k as int) && i + 8 <= k <= v.len(),
            None => keyword_end(v@, i as int) is None,
        },
{
    if v.len() - i < 8 {
        return None;
    }
    if !(v[i] == '(' && v[i + 3] == '_' && v[i + 4] == 't' && v[i + 5] == 'e' && v[i + 6] == 'x'
        && v[i + 7] == 't') {
        return None;
    }
    if v[i + 1] == 'g' && v[i + 2] == 'r' {
        Some(i + 8)
    } else if v[i + 1] == 'f' && v[i + 2] == 'p' {
        let ws = run_end_exec(v, i + 8, CharClass::Ws);
        if ws == i + 8 {
            return None;
        }
        let qual = run_end_exec(v, ws, CharClass::Lower);
        if qual == ws {
            return None;
        }
        Some(qual)
    } else {
        None
    }
}

/// Executable counterpart of [`anchor_end`].
fn anchor_end_exec(v: &Vec<char>, i: usize) -> (r: Option<usize>)
    requires
        i <= v.len(),
    ensures
        match r {
            Some(a) => anchor_end(v@, i as int) == Some(a as int) && i + 9 <= a <= v.len(),
            None => anchor_end(v@, i as int) is None,
        },
{
    match keyword_end_exec(v, i) {
        Some(k) => {
            let ws = run_end_exec(v, k, CharClass::Ws);
            if ws > k {
                Some(ws)
            } else {
                None
            }
        },
        None => None,
    }
}

/// A placeholder `${NAME}` begins at `p` and closes before `hi`: a dollar
/// sign, an opening brace, a (possibly empty) run of name characters, and a
/// closing brace.
pub open spec fn placeholder_at(s: Seq<char>, p: int, hi: int) -> bool {
    let close = run_end(s, p + 2, CharClass::Name);
    &&& 0 <= p
    &&& p + 2 <= hi <= s.len()
    &&& s[p] == '$'
    &&& s[p + 1] == '{'
    &&& close < hi
    &&& s[close] == '}'
}

/// Some placeholder begins at or after `lo` and closes before `hi`.
pub open spec fn has_placeholder(s: Seq<char>, lo: int, hi: int) -> bool {
    exists|p: int| lo <= p && #[trigger] placeholder_at(s, p, hi)
}

/// Executable counterpart of [`has_placeholder`].
fn has_placeholder_exec(v: &Vec<char>, lo: usize, hi: usize) -> (r: bool)
    requires
        lo <= hi <= v.len(),
    ensures
        r == has_placeholder(v@, lo as int, hi as int),
{
    let mut p = lo;
    while p < hi
        invariant
            lo <= p <= hi <= v@.len(),
            forall|q: int| lo <= q < p ==> !placeholder_at(v@, q, hi as int),
        decreases hi - p,
    {
        if v[p] == '$' && p + 1 < hi && v[p + 1] == '{' {
            let close = run_end_exec(v, p + 2, CharClass::Name);
            if close < hi && v[close] == '}' {
                assert(placeholder_at(v@, p as int, hi as int));
                return true;
            }
        }
        p = p + 1;
    }
    assert forall|q: int| lo <= q implies !placeholder_at(v@, q, hi as int) by {
        if q < p {
        } else {
            assert(q + 2 > hi);
        }
    }
    false
}

/// A `quote` match at anchor position `i`: the Field Token after the anchor
/// holds at least one placeholder. Returns the token's start and end.
pub open spec fn quote_match_at(s: Seq<char>, i: int) -> Option<(int, int)> {
    match anchor_end(s, i) {
        Some(t0) => {
            let t1 = run_end(s, t0, CharClass::Token);
            if has_placeholder(s, t0, t1) {
                Some((t0, t1))
            } else {
                None
            }
        },
        None => None,
    }
}

/// A matched Field Token lies strictly between the anchor position and the
/// end of the line.
pub proof fn lemma_quote_match_bounds(s: Seq<char>, i: int, t0: int, t1: int)
    requires
        quote_match_at(s, i) == Some((t0, t1)),
    ensures
        0 <= i,
        i + 9 <= t0 < t1 <= s.len(),
{
    lemma_anchor_end_bounds(s, i, t0);
    lemma_run_end(s, t0, CharClass::Token);
    let p = choose|p: int| t0 <= p && #[trigger] placeholder_at(s, p, t1);
    assert(p + 2 <= t1);
}

/// Executable counterpart of [`quote_match_at`].
fn quote_match_exec(v: &Vec<char>, i: usize) -> (r: Option<(usize, usize)>)
    requires
        i <= v.len(),
    ensures
        match r {
            Some(m) => quote_match_at(v@, i as int) == Some((m.0 as int, m.1 as int)) && i < m.0
                < m.1 <= v.len(),
            None => quote_match_at(v@, i as int) is None,
        },
{
    match anchor_end_exec(v, i) {
        Some(t0) => {
            let t1 = run_end_exec(v, t0, CharClass::Token);
            if has_placeholder_exec(v, t0, t1) {
                proof {
                    lemma_quote_match_bounds(v@, i as int, t0 as int, t1 as int);
                }
                Some((t0, t1))
            } else {
                None
            }
        },
        None => None,
    }
}

/// An `unquote` match at anchor position `i`: an opening quote, a non-empty
/// run of plain characters, a closing quote, one whitespace run, and a
/// parenthesis. Returns the position of the opening quote, the position of
/// the closing quote, and the index just past the trailing parenthesis.
pub open spec fn unquote_match_at(s: Seq<char>, i: int) -> Option<(int, int, int)> {
    match anchor_end(s, i) {
        Some(q) => {
            if q < s.len() && s[q] == '"' {
                let t1 = run_end(s, q + 1, CharClass::Plain);
                if t1 > q + 1 && t1 < s.len() && s[t1] == '"' {
                    let p = run_end(s, t1 + 1, CharClass::Ws);
                    if p > t1 + 1 && p < s.len() && (s[p] == '(' || s[p] == ')') {
                        Some((q, t1, p + 1))
                    } else {
                        None
                    }
                } else {
                    None
                }
            } else {
                None
            }
        },
        None => None,
    }
}

/// The parts of an `unquote` match stand in order inside the line.
pub proof fn lemma_unquote_match_bounds(s: Seq<char>, i: int, q: int, t1: int, e: int)
    requires
        unquote_match_at(s, i) == Some((q, t1, e)),
    ensures
        0 <= i,
        i + 9 <= q,
        q + 1 < t1,
        t1 + 1 < e <= s.len(),
{
    lemma_anchor_end_bounds(s, i, q);
    lemma_run_end(s, q + 1, CharClass::Plain);
    lemma_run_end(s, t1 + 1, CharClass::Ws);
}

/// Executable counterpart of [`unquote_match_at`].
fn unquote_match_exec(v: &Vec<char>, i: usize) -> (r: Option<(usize, usize, usize)>)
    requires
        i <= v.len(),
    ensures
        match r {
            Some(m) => unquote_match_at(v@, i as int) == Some(
                (m.0 as int, m.1 as int, m.2 as int),
            ) && i < m.0 && m.0 + 1 < m.1 && m.1 + 1 < m.2 <= v.len(),
            None => unquote_match_at(v@, i as int) is None,
        },
{
    match anchor_end_exec(v, i) {
        Some(q) => {
            if q < v.len() && v[q] == '"' {
                let t1 = run_end_exec(v, q + 1, CharClass::Plain);
                if t1 > q + 1 && t1 < v.len() && v[t1] == '"' {
                    let p = run_end_exec(v, t1 + 1, CharClass::Ws);
                    if p > t1 + 1 && p < v.len() && (v[p] == '(' || v[p] == ')') {
                        Some((q, t1, p + 1))
                    } else {
                        None
                    }
                } else {
                    None
                }
            } else {
                None
            }
        },
        None => None,
    }
}

/// The result of `quote` on the suffix of `s` that begins at `i`: matches are
/// found left to right; at a match the Field Token is wrapped in double
/// quotes and the scan resumes after the token; everywhere else the character
/// is kept.
pub open spec fn quote_from(s: Seq<char>, i: int) -> Seq<char>
    decreases s.len() - i,
        via quote_from_decreases
{
    if i < 0 || i >= s.len() {
        Seq::empty()
    } else {
        match quote_match_at(s, i) {
            Some(m) => s.subrange(i, m.0) + seq!['"'] + s.subrange(m.0, m.1) + seq!['"']
                + quote_from(s, m.1),
            None => seq![s[i]] + quote_from(s, i + 1),
        }
    }
}

#[via_fn]
proof fn quote_from_decreases(s: Seq<char>, i: int) {
    if 0 <= i < s.len() {
        match quote_match_at(s, i) {
            Some(m) => lemma_quote_match_bounds(s, i, m.0, m.1),
            None => {},
        }
    }
}

/// The result of `unquote` on the suffix of `s` that begins at `i`: matches
/// are found left to right; at a match the two double quotes are dropped and
/// the scan resumes after the trailing parenthesis; everywhere else the
/// character is kept.
pub open spec fn unquote_from(s: Seq<char>, i: int) -> Seq<char>
    decreases s.len() - i,
        via unquote_from_decreases
{
    if i < 0 || i >= s.len() {
        Seq::empty()
    } else {
        match unquote_match_at(s, i) {
            Some(m) => s.subrange(i, m.0) + s.subrange(m.0 + 1, m.1) + s.subrange(m.1 + 1, m.2)
                + unquote_from(s, m.2),
            None => seq![s[i]] + unquote_from(s, i + 1),
        }
    }
}

#[via_fn]
proof fn unquote_from_decreases(s: Seq<char>, i: int) {
    if 0 <= i < s.len() {
        match unquote_match_at(s, i) {
            Some(m) => lemma_unquote_match_bounds(s, i, m.0, m.1, m.2),
            None => {},
        }
    }
}

/// What `quote` returns: the line with every eligible Field Token wrapped in
/// double quotes.
pub open spec fn quote_spec(s: Seq<char>) -> Seq<char> {
    quote_from(s, 0)
}

/// What `unquote` returns: the line with the double quotes dropped around
/// every safely delimited token in an eligible position.
pub open spec fn unquote_spec(s: Seq<char>) -> Seq<char> {
    unquote_from(s, 0)
}

/// The characters of `s`, one per element.
fn str_to_chars(s: &str) -> (r: Vec<char>)
    ensures
        r@ == s@,
{
    let n = s.unicode_len();
    let mut v: Vec<char> = Vec::new();
    let mut i: usize = 0;
    while i < n
        invariant
            i <= n,
            n == s@.len(),
            v@ == s@.subrange(0, i as int),
        decreases n - i,
    {
        let c = s.get_char(i);
        v.push(c);
        proof {
            assert(v@ =~= s@.subrange(0, i as int + 1));
        }
        i = i + 1;
    }
    proof {
        assert(v@ =~= s@);
    }
    v
}

/// Appends one double-quote character.
fn push_quote(out: &mut String)
    ensures
        final(out)@ == old(out)@ + seq!['"'],
{
    let q = "\"";
    proof {
        reveal_strlit("\"");
        assert(q@ =~= seq!['"']);
    }
    out.append(q);
}

/// Wraps every eligible Field Token of `input` in double quotes.
///
/// A Field Token is eligible when it follows an anchor (opening parenthesis,
/// Field Keyword, whitespace), contains no whitespace and no double quote,
/// and holds at least one `${NAME}` placeholder. Everything else on the line
/// is kept unchanged.
pub fn quote(input: &str) -> (r: String)
    ensures
        r@ == quote_spec(input@),
{
    let v = str_to_chars(input);
    let n = v.len();
    let mut out = String::new();
    let mut last: usize = 0;
    let mut i: usize = 0;
    while i < n
        invariant
            v@ == input@,
            n == v@.len(),
            last <= i <= n,
            quote_spec(input@) == out@ + input@.subrange(last as int, i as int) + quote_from(
                input@,
                i as int,
            ),
        decreases n - i,
    {
        match quote_match_exec(&v, i) {
            Some((t0, t1)) => {
                let ghost prev = out@;
                out.append(input.substring_char(last, t0));
                push_quote(&mut out);
                out.append(input.substring_char(t0, t1));
                push_quote(&mut out);
                proof {
                    assert(prev + input@.subrange(last as int, i as int) + quote_from(
                        input@,
                        i as int,
                    ) =~= out@ + input@.subrange(t1 as int, t1 as int) + quote_from(
                        input@,
                        t1 as int,
                    ));
                }
                last = t1;
                i = t1;
            },
            None => {
                proof {
                    assert(out@ + input@.subrange(last as int, i as int) + quote_from(
                        input@,
                        i as int,
                    ) =~= out@ + input@.subrange(last as int, i as int + 1) + quote_from(
                        input@,
                        i as int + 1,
                    ));
                }
                i = i + 1;
            },
        }
    }
    out.append(input.substring_char(last, n));
    proof {
        assert(quote_spec(input@) =~= out@);
    }
    out
}

/// Removes the double quotes around every safely delimited token of `input`
/// that stands in an eligible position.
///
/// A quoted token is eligible when it follows an anchor (opening parenthesis,
/// Field Keyword, whitespace), its content is non-empty and free of
/// whitespace, double quotes and backslashes, and the closing quote is
/// followed by whitespace and a parenthesis. Everything else on the line is
/// kept unchanged.
pub fn unquote(input: &str) -> (r: String)
    ensures
        r@ == unquote_spec(input@),
{
    let v = str_to_chars(input);
    let n = v.len();
    let mut out = String::new();
    let mut last: usize = 0;
    let mut i: usize = 0;
    while i < n
        invariant
            v@ == input@,
            n == v@.len(),
            last <= i <= n,
            unquote_spec(input@) == out@ + input@.subrange(last as int, i as int) + unquote_from(
                input@,
                i as int,
            ),
        decreases n - i,
    {
        match unquote_match_exec(&v, i) {
            Some((q, t1, e)) => {
                let ghost prev = out@;
                out.append(input.substring_char(last, q));
                out.append(input.substring_char(q + 1, t1));
                out.append(input.substring_char(t1 + 1, e));
                proof {
                    assert(prev + input@.subrange(last as int, i as int) + unquote_from(
                        input@,
                        i as int,
                    ) =~= out@ + input@.subrange(e as int, e as int) + unquote_from(
                        input@,
                        e as int,
                    ));
                }
                last = e;
                i = e;
            },
            None => {
                proof {
                    assert(out@ + input@.subrange(last as int, i as int) + unquote_from(
                        input@,
                        i as int,
                    ) =~= out@ + input@.subrange(last as int, i as int + 1) + unquote_from(
                        input@,
                        i as int + 1,
                    ));
                }
                i = i + 1;
            },
        }
    }
    out.append(input.substring_char(last, n));
    proof {
        assert(unquote_spec(input@) =~= out@);
    }
    out
}

} // verus!
