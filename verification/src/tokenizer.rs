//! The quoting-aware `key=value` tokenizer.
//!
//! A line is read once from left to right. A double quote opens a quoted
//! region, which the next double quote not preceded by a backslash closes.
//! Outside quoted regions a space is a token boundary and an `=` assigns: the
//! key is the text between the last boundary and the `=`. The value of a pair
//! runs up to the last boundary before the next assignment; the value of the
//! last pair runs to the end of the line. A value that opens with a double
//! quote is kept without its first and its last character.
//!
//! A pair that another pair follows is kept only if it has a value: a
//! boundary lies at least one character beyond its `=`. So `dst= type=vpn`
//! has no field `dst`, and in `a=b=c d=e` the key of `c` is `a=b`. The last
//! pair of a line is always kept, with an empty value if need be.
//!
//! `tokenize` says what the field map of a line is. Two laws say it again
//! without the scanner: `lemma_lookup_returns_value` and
//! `lemma_key_has_pair` here, and `lemma_round_trip` in `rendering`.

use vstd::prelude::*;
use vstd::string::*;
use crate::fields::TextMap;
use crate::text::{substring, to_chars};

verus! {

/// The result of tokenizing a line: field name to field value.
pub type FieldMap = TextMap<String>;

/// Whether the scanner is inside a quoted region after reading the first `n`
/// characters of `s`.
pub open spec fn in_quotes(s: Seq<char>, n: int) -> bool
    decreases n,
{
    if n <= 0 {
        false
    } else if in_quotes(s, n - 1) {
        !(s[n - 1] == '"' && s[n - 2] != '\\')
    } else {
        s[n - 1] == '"'
    }
}

/// Index `i` holds a space outside quotes: a token boundary.
pub open spec fn is_boundary(s: Seq<char>, i: int) -> bool {
    0 <= i < s.len() && s[i] == ' ' && !in_quotes(s, i)
}

/// Index `i` holds an `=` outside quotes: an assignment.
pub open spec fn is_assign(s: Seq<char>, i: int) -> bool {
    0 <= i < s.len() && s[i] == '=' && !in_quotes(s, i)
}

/// Where the current token starts after reading the first `n` characters:
/// just after the last boundary, or at the start of the line.
pub open spec fn token_start(s: Seq<char>, n: int) -> int
    decreases n,
{
    if n <= 0 {
        0
    } else if is_boundary(s, n - 1) {
        n
    } else {
        token_start(s, n - 1)
    }
}

/// The last assignment among the first `n` characters.
pub open spec fn last_assign(s: Seq<char>, n: int) -> Option<int>
    decreases n,
{
    if n <= 0 {
        None
    } else if is_assign(s, n - 1) {
        Some(n - 1)
    } else {
        last_assign(s, n - 1)
    }
}

/// The key of the assignment at `eq`.
pub open spec fn key_of(s: Seq<char>, eq: int) -> Seq<char> {
    s.subrange(token_start(s, eq), eq)
}

/// The value of the assignment at `eq` when the boundary at `stop` ends it.
/// A value that opens with a quote loses its first and last character.
pub open spec fn inner_value(s: Seq<char>, eq: int, stop: int) -> Seq<char> {
    if s[eq + 1] == '"' {
        s.subrange(eq + 2, stop - 1)
    } else {
        s.subrange(eq + 1, stop)
    }
}

/// The value of the assignment at `eq` when it is the last of the line.
pub open spec fn tail_value(s: Seq<char>, eq: int) -> Seq<char> {
    if eq + 2 < s.len() && s[eq + 1] == '"' {
        s.subrange(eq + 2, s.len() - 1)
    } else {
        s.subrange(eq + 1, s.len() as int)
    }
}

/// Whether the assignment at `eq` has a value once the current token starts
/// at `start`: a boundary lies at least one character beyond the `=`.
pub open spec fn has_value(eq: int, start: int) -> bool {
    start >= eq + 3
}

/// The pairs completed within the first `n` characters. A pair is completed
/// by the next assignment, and kept only if it has a value.
pub open spec fn closed_fields(s: Seq<char>, n: int) -> Map<Seq<char>, Seq<char>>
    decreases n,
{
    if n <= 0 {
        Map::empty()
    } else if is_assign(s, n - 1) {
        match last_assign(s, n - 1) {
            Some(eq) if has_value(eq, token_start(s, n - 1)) => closed_fields(s, n - 1).insert(
                key_of(s, eq),
                inner_value(s, eq, token_start(s, n - 1) - 1),
            ),
            _ => closed_fields(s, n - 1),
        }
    } else {
        closed_fields(s, n - 1)
    }
}

/// The field map of a line: the completed pairs, then the trailing pair.
pub open spec fn tokenize(s: Seq<char>) -> Map<Seq<char>, Seq<char>> {
    match last_assign(s, s.len() as int) {
        Some(eq) => closed_fields(s, s.len() as int).insert(key_of(s, eq), tail_value(s, eq)),
        None => Map::empty(),
    }
}

/// The current token never starts beyond what has been read.
pub proof fn lemma_token_start_bounds(s: Seq<char>, n: int)
    requires
        0 <= n,
    ensures
        0 <= token_start(s, n) <= n,
    decreases n,
{
    if n > 0 {
        lemma_token_start_bounds(s, n - 1);
    }
}

/// After an assignment whose value opens with a quote, the next boundary
/// lies beyond the closing quote: the stripped value is a valid range.
pub proof fn lemma_quoted_value_bounds(s: Seq<char>, eq: int, n: int)
    requires
        is_assign(s, eq),
        eq + 1 < s.len(),
        s[eq + 1] == '"',
        eq < n <= s.len(),
    ensures
        token_start(s, n) <= eq || token_start(s, n) >= eq + 4,
    decreases n,
{
    if n == eq + 1 {
        lemma_token_start_bounds(s, eq);
    } else {
        lemma_quoted_value_bounds(s, eq, n - 1);
        if n - 1 == eq + 2 {
            assert(!in_quotes(s, eq + 1));
            assert(in_quotes(s, eq + 2));
        }
    }
}

/// Splits a `key=value` line into its field map.
pub fn extract_fields(message: &str) -> (fields: FieldMap)
    ensures
        fields@ == tokenize(message@),
{
    let chars = to_chars(message);
    let n = chars.len();
    let ghost s = message@;
    let mut fields: FieldMap = TextMap::new();
    let mut quoted = false;
    let mut start: usize = 0;
    let mut pending: Option<(usize, usize)> = None;
    let mut i: usize = 0;
    while i < n
        invariant
            chars@ == s,
            s == message@,
            n == s.len(),
            i <= n,
            quoted == in_quotes(s, i as int),
            start == token_start(s, i as int),
            start <= i,
            match pending {
                Some((key_start, eq)) => {
                    &&& last_assign(s, i as int) == Some(eq as int)
                    &&& is_assign(s, eq as int)
                    &&& key_start == token_start(s, eq as int)
                    &&& key_start <= eq < i
                },
                None => last_assign(s, i as int) is None && fields@ == Map::<
                    Seq<char>,
                    Seq<char>,
                >::empty(),
            },
            fields@ == closed_fields(s, i as int),
        decreases n - i,
    {
        let c = chars[i];
        if !quoted {
            if c == '=' {
                if let Some((key_start, eq)) = pending {
                    if start > eq && start - eq >= 3 {
                        let stop: usize = start - 1;
                        let key = substring(message, key_start, eq);
                        let value = if chars[eq + 1] == '"' {
                            proof {
                                lemma_quoted_value_bounds(s, eq as int, i as int);
                            }
                            substring(message, eq + 2, stop - 1)
                        } else {
                            substring(message, eq + 1, stop)
                        };
                        fields.insert(key, value);
                    }
                }
                pending = Some((start, i));
            } else if c == ' ' {
                start = i + 1;
            } else if c == '"' {
                quoted = true;
            }
        } else if c == '"' && chars[i - 1] != '\\' {
            quoted = false;
        }
        i += 1;
    }
    match pending {
        Some((key_start, eq)) => {
            let key = substring(message, key_start, eq);
            let value = if n - eq > 2 && chars[eq + 1] == '"' {
                substring(message, eq + 2, n - 1)
            } else {
                substring(message, eq + 1, n)
            };
            fields.insert(key, value);
        },
        None => {},
    }
    fields
}

/// The first assignment at or after `from`.
pub open spec fn next_assign(s: Seq<char>, from: int) -> Option<int>
    decreases s.len() - from,
{
    if from < 0 || from >= s.len() {
        None
    } else if is_assign(s, from) {
        Some(from)
    } else {
        next_assign(s, from + 1)
    }
}

/// The pair assigned at `eq` is one of the line: it is the last pair, or it
/// has a value before the next assignment.
pub open spec fn is_kept(s: Seq<char>, eq: int) -> bool {
    is_assign(s, eq) && match next_assign(s, eq + 1) {
        Some(next) => has_value(eq, token_start(s, next)),
        None => true,
    }
}

/// The value of the pair assigned at `eq`: what stands after the `=`, up to
/// the last boundary before the next assignment or to the end of the line,
/// without the quotes around it.
pub open spec fn value_of(s: Seq<char>, eq: int) -> Seq<char> {
    match next_assign(s, eq + 1) {
        Some(next) => inner_value(s, eq, token_start(s, next) - 1),
        None => tail_value(s, eq),
    }
}

/// The pair assigned at `eq` is completed within the first `n` characters.
spec fn closed_by(s: Seq<char>, eq: int, n: int) -> bool {
    is_assign(s, eq) && match next_assign(s, eq + 1) {
        Some(next) => next < n && has_value(eq, token_start(s, next)),
        None => false,
    }
}

/// `next_assign` finds the least assignment at or after `from`.
pub proof fn lemma_next_assign(s: Seq<char>, from: int)
    requires
        0 <= from,
    ensures
        match next_assign(s, from) {
            Some(p) => from <= p < s.len() && is_assign(s, p) && forall|j: int|
                from <= j < p ==> !is_assign(s, j),
            None => forall|j: int| from <= j ==> !is_assign(s, j),
        },
    decreases s.len() - from,
{
    if from < s.len() && !is_assign(s, from) {
        lemma_next_assign(s, from + 1);
    }
}

/// `last_assign` finds the greatest assignment before `n`.
pub proof fn lemma_last_assign(s: Seq<char>, n: int)
    requires
        0 <= n <= s.len(),
    ensures
        match last_assign(s, n) {
            Some(e) => 0 <= e < n && is_assign(s, e) && forall|j: int|
                e < j < n ==> !is_assign(s, j),
            None => forall|j: int| j < n ==> !is_assign(s, j),
        },
    decreases n,
{
    if n > 0 && !is_assign(s, n - 1) {
        lemma_last_assign(s, n - 1);
    }
}

/// The assignment before `p` is `eq` exactly when the assignment after `eq`
/// is `p`.
proof fn lemma_neighbours(s: Seq<char>, eq: int, p: int)
    requires
        is_assign(s, eq),
        is_assign(s, p),
    ensures
        last_assign(s, p) == Some(eq) <==> next_assign(s, eq + 1) == Some(p),
{
    lemma_last_assign(s, p);
    lemma_next_assign(s, eq + 1);
}

/// A pair completed within `n` characters is bound in `closed_fields`; it
/// is bound to its value if no later pair completed within `n` characters
/// has the same key.
proof fn lemma_closed_value(s: Seq<char>, n: int, eq: int)
    requires
        0 <= n <= s.len(),
        closed_by(s, eq, n),
    ensures
        closed_fields(s, n).contains_key(key_of(s, eq)),
        (forall|later: int|
            eq < later && closed_by(s, later, n) ==> key_of(s, later) != key_of(s, eq))
            ==> closed_fields(s, n)[key_of(s, eq)] == value_of(s, eq),
    decreases n,
{
    let p = n - 1;
    let next = next_assign(s, eq + 1)->0;
    lemma_next_assign(s, eq + 1);
    if !is_assign(s, p) {
        lemma_closed_value(s, n - 1, eq);
        assert forall|later: int| eq < later && closed_by(s, later, n - 1) implies closed_by(
            s,
            later,
            n,
        ) by {}
    } else if next == p {
        lemma_neighbours(s, eq, p);
    } else {
        lemma_closed_value(s, n - 1, eq);
        lemma_last_assign(s, p);
        match last_assign(s, p) {
            Some(e) => {
                lemma_neighbours(s, e, p);
                if has_value(e, token_start(s, p)) {
                    assert(closed_by(s, e, n));
                    assert(eq < e);
                }
            },
            None => {},
        }
        assert forall|later: int| eq < later && closed_by(s, later, n - 1) implies closed_by(
            s,
            later,
            n,
        ) by {}
    }
}

/// A key of `closed_fields` is the key of a pair completed within `n`
/// characters.
proof fn lemma_closed_key(s: Seq<char>, n: int, key: Seq<char>) -> (eq: int)
    requires
        0 <= n <= s.len(),
        closed_fields(s, n).contains_key(key),
    ensures
        closed_by(s, eq, n),
        key_of(s, eq) == key,
    decreases n,
{
    let p = n - 1;
    if n <= 0 {
        0
    } else if !is_assign(s, p) {
        lemma_closed_key(s, n - 1, key)
    } else {
        lemma_last_assign(s, p);
        match last_assign(s, p) {
            Some(e) if has_value(e, token_start(s, p)) => {
                lemma_neighbours(s, e, p);
                if key_of(s, e) == key {
                    e
                } else {
                    lemma_closed_key(s, n - 1, key)
                }
            },
            _ => lemma_closed_key(s, n - 1, key),
        }
    }
}

/// Looking a key up returns what stood after its `=`.
///
/// Take a pair of the line, assigned at `eq`, such that no later pair of
/// the line has the same key. Then the field map binds the key of the pair
/// to the value of the pair.
pub proof fn lemma_lookup_returns_value(s: Seq<char>, eq: int)
    requires
        is_kept(s, eq),
        forall|later: int| eq < later && is_kept(s, later) ==> key_of(s, later) != key_of(s, eq),
    ensures
        tokenize(s).contains_key(key_of(s, eq)),
        tokenize(s)[key_of(s, eq)] == value_of(s, eq),
{
    let n = s.len() as int;
    lemma_last_assign(s, n);
    lemma_next_assign(s, eq + 1);
    let last = last_assign(s, n)->0;
    lemma_next_assign(s, last + 1);
    if next_assign(s, eq + 1) is Some {
        lemma_closed_value(s, n, eq);
        assert(is_kept(s, last));
        assert forall|later: int| eq < later && closed_by(s, later, n) implies key_of(s, later)
            != key_of(s, eq) by {
            assert(is_kept(s, later));
        }
    }
}

/// Every key of the field map is the key of a pair of the line.
pub proof fn lemma_key_has_pair(s: Seq<char>, key: Seq<char>) -> (eq: int)
    requires
        tokenize(s).contains_key(key),
    ensures
        is_kept(s, eq),
        key_of(s, eq) == key,
{
    let n = s.len() as int;
    lemma_last_assign(s, n);
    let last = last_assign(s, n)->0;
    lemma_next_assign(s, last + 1);
    if key_of(s, last) == key {
        last
    } else {
        lemma_closed_key(s, n, key)
    }
}

/// A key is one token: it starts at the start of the line or just after a
/// boundary, ends at its `=`, and holds no boundary. It is empty only where
/// nothing stands between the two.
pub proof fn lemma_key_is_one_token(s: Seq<char>, eq: int)
    requires
        is_assign(s, eq),
    ensures
        0 <= token_start(s, eq) <= eq,
        key_of(s, eq).len() == eq - token_start(s, eq),
        token_start(s, eq) == 0 || is_boundary(s, token_start(s, eq) - 1),
        forall|j: int| token_start(s, eq) <= j < eq ==> !is_boundary(s, j),
{
    lemma_token_start_is_last_boundary(s, eq);
}

/// The current token starts just after the last boundary read.
proof fn lemma_token_start_is_last_boundary(s: Seq<char>, n: int)
    requires
        0 <= n <= s.len(),
    ensures
        0 <= token_start(s, n) <= n,
        token_start(s, n) == 0 || is_boundary(s, token_start(s, n) - 1),
        forall|j: int| token_start(s, n) <= j < n ==> !is_boundary(s, j),
    decreases n,
{
    if n > 0 {
        lemma_token_start_is_last_boundary(s, n - 1);
    }
}

} // verus!
