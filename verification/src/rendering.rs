//! Writing a list of pairs as a `key=value` line, and reading it back.
//!
//! Nothing here runs: the module states what the tokenizer does to a line
//! whose pairs are written down in the usual way, and proves it.

use vstd::prelude::*;
use crate::tokenizer::{
    closed_fields, has_value, in_quotes, inner_value, is_assign, is_boundary, key_of, last_assign,
    lemma_last_assign, lemma_quoted_value_bounds, lemma_token_start_bounds, tail_value,
    token_start, tokenize,
};

verus! {

/// One pair as it is written: quoted values stand between double quotes.
pub struct Pair {
    pub key: Seq<char>,
    pub value: Seq<char>,
    pub quoted: bool,
}

/// A character that means nothing to the tokenizer outside quotes.
pub open spec fn is_plain(c: char) -> bool {
    c != ' ' && c != '=' && c != '"'
}

/// Text without space, `=` or double quote.
pub open spec fn is_word(w: Seq<char>) -> bool {
    forall|i: int| 0 <= i < w.len() ==> is_plain(#[trigger] w[i])
}

/// Text that can stand between double quotes: every double quote in it
/// follows a backslash, and it does not end with a backslash.
pub open spec fn is_quotable(v: Seq<char>) -> bool {
    &&& forall|i: int| 0 <= i < v.len() && #[trigger] v[i] == '"' ==> i > 0 && v[i - 1] == '\\'
    &&& v.len() > 0 ==> v.last() != '\\'
}

/// Text that can stand without quotes: it is not empty and holds neither
/// `=` nor double quote. It may hold spaces.
pub open spec fn is_bare(v: Seq<char>) -> bool {
    &&& v.len() > 0
    &&& forall|i: int| 0 <= i < v.len() ==> #[trigger] v[i] != '=' && v[i] != '"'
}

/// A pair that reads back as written: the key is a word, and the value is
/// quotable if it is quoted and bare if it is not.
pub open spec fn well_formed(p: Pair) -> bool {
    &&& is_word(p.key)
    &&& if p.quoted {
        is_quotable(p.value)
    } else {
        is_bare(p.value)
    }
}

/// The value as it stands in the line.
pub open spec fn written_value(p: Pair) -> Seq<char> {
    if p.quoted {
        seq!['"'] + p.value + seq!['"']
    } else {
        p.value
    }
}

/// The pair as it stands in the line.
pub open spec fn written_pair(p: Pair) -> Seq<char> {
    p.key + seq!['='] + written_value(p)
}

/// The line of `pairs`: the pairs in order, with one space between them.
pub open spec fn written(pairs: Seq<Pair>) -> Seq<char>
    decreases pairs.len(),
{
    if pairs.len() == 0 {
        Seq::empty()
    } else if pairs.len() == 1 {
        written_pair(pairs[0])
    } else {
        written(pairs.drop_last()) + seq![' '] + written_pair(pairs.last())
    }
}

/// The map of `pairs`: each key bound to the value of its last pair.
pub open spec fn bindings(pairs: Seq<Pair>) -> Map<Seq<char>, Seq<char>>
    decreases pairs.len(),
{
    if pairs.len() == 0 {
        Map::empty()
    } else {
        bindings(pairs.drop_last()).insert(pairs.last().key, pairs.last().value)
    }
}

/// After `to` characters the scanner is outside quotes and knows what it
/// knew after `from` characters.
spec fn same_state(s: Seq<char>, from: int, to: int) -> bool {
    &&& !in_quotes(s, to)
    &&& token_start(s, to) == token_start(s, from)
    &&& last_assign(s, to) == last_assign(s, from)
    &&& closed_fields(s, to) == closed_fields(s, from)
}

/// Plain characters read outside quotes change nothing.
proof fn lemma_scan_plain(s: Seq<char>, from: int, to: int)
    requires
        0 <= from <= to <= s.len(),
        !in_quotes(s, from),
        forall|j: int| from <= j < to ==> is_plain(#[trigger] s[j]),
    ensures
        same_state(s, from, to),
    decreases to - from,
{
    if from < to {
        lemma_scan_plain(s, from, to - 1);
    }
}

/// Characters other than `=` and double quote, read outside quotes, open
/// no quote and assign nothing.
proof fn lemma_scan_bare(s: Seq<char>, from: int, to: int)
    requires
        0 <= from <= to <= s.len(),
        !in_quotes(s, from),
        forall|j: int| from <= j < to ==> #[trigger] s[j] != '=' && s[j] != '"',
    ensures
        !in_quotes(s, to),
        last_assign(s, to) == last_assign(s, from),
        closed_fields(s, to) == closed_fields(s, from),
    decreases to - from,
{
    if from < to {
        lemma_scan_bare(s, from, to - 1);
    }
}

/// A quoted region changes nothing but the characters it covers.
proof fn lemma_scan_quoted(s: Seq<char>, open: int, close: int, n: int)
    requires
        0 <= open < close < s.len(),
        !in_quotes(s, open),
        s[open] == '"',
        s[close] == '"',
        s[close - 1] != '\\',
        forall|j: int| open < j < close && #[trigger] s[j] == '"' ==> s[j - 1] == '\\',
        open < n <= close,
    ensures
        in_quotes(s, n),
        token_start(s, n) == token_start(s, open),
        last_assign(s, n) == last_assign(s, open),
        closed_fields(s, n) == closed_fields(s, open),
        n == close ==> same_state(s, open, close + 1),
    decreases n,
{
    if n > open + 1 {
        lemma_scan_quoted(s, open, close, n - 1);
    }
    if n == close {
        assert(in_quotes(s, close));
        assert(!in_quotes(s, close + 1));
        assert(!is_boundary(s, close));
        assert(!is_assign(s, close));
        assert(token_start(s, close + 1) == token_start(s, close));
        assert(last_assign(s, close + 1) == last_assign(s, close));
        assert(closed_fields(s, close + 1) == closed_fields(s, close));
    }
}

/// What the scanner knows after `n` characters depends on those characters
/// alone.
proof fn lemma_prefix(a: Seq<char>, b: Seq<char>, n: int)
    requires
        0 <= n <= a.len(),
        n <= b.len(),
        forall|j: int| 0 <= j < n ==> a[j] == b[j],
    ensures
        in_quotes(a, n) == in_quotes(b, n),
        token_start(a, n) == token_start(b, n),
        last_assign(a, n) == last_assign(b, n),
        closed_fields(a, n) == closed_fields(b, n),
    decreases n,
{
    if n > 0 {
        lemma_prefix(a, b, n - 1);
        let p = n - 1;
        if is_assign(a, p) {
            lemma_last_assign(a, p);
            match last_assign(a, p) {
                Some(eq) => {
                    let start = token_start(a, p);
                    if has_value(eq, start) {
                        lemma_prefix(a, b, eq);
                        lemma_token_start_bounds(a, eq);
                        lemma_token_start_bounds(a, p);
                        assert(key_of(a, eq) =~= key_of(b, eq));
                        if a[eq + 1] == '"' {
                            lemma_quoted_value_bounds(a, eq, p);
                        }
                        assert(inner_value(a, eq, start - 1) =~= inner_value(b, eq, start - 1));
                    }
                },
                None => {},
            }
        }
    }
}

/// Reading a well-formed pair that starts at `b`, at the start of a token
/// and outside quotes.
proof fn lemma_scan_pair(s: Seq<char>, b: int, p: Pair)
    requires
        well_formed(p),
        0 <= b,
        b + written_pair(p).len() <= s.len(),
        forall|k: int| 0 <= k < written_pair(p).len() ==> s[b + k] == written_pair(p)[k],
        !in_quotes(s, b),
        token_start(s, b) == b,
    ensures
        ({
            let eq = b + p.key.len();
            let e = b + written_pair(p).len();
            &&& is_assign(s, eq)
            &&& token_start(s, eq) == b
            &&& last_assign(s, eq) == last_assign(s, b)
            &&& closed_fields(s, eq) == closed_fields(s, b)
            &&& key_of(s, eq) == p.key
            &&& !in_quotes(s, e)
            &&& last_assign(s, e) == Some(eq)
            &&& closed_fields(s, e) == closed_fields(s, eq + 1)
            &&& e == eq + 1 + written_value(p).len()
            &&& if p.quoted {
                s[eq + 1] == '"' && e >= eq + 3 && s.subrange(eq + 2, e - 1) == p.value
            } else {
                s[eq + 1] != '"' && e >= eq + 2 && s.subrange(eq + 1, e) == p.value
            }
        }),
{
    let wp = written_pair(p);
    let kl = p.key.len() as int;
    let vl = p.value.len() as int;
    let eq = b + kl;
    let e = b + wp.len();
    assert forall|j: int| b <= j < eq implies is_plain(#[trigger] s[j]) by {
        assert(s[b + (j - b)] == wp[j - b]);
        assert(wp[j - b] == p.key[j - b]);
    }
    lemma_scan_plain(s, b, eq);
    assert(s[b + kl] == wp[kl]);
    assert(s[eq] == '=');
    assert(key_of(s, eq) =~= p.key) by {
        assert forall|k: int| 0 <= k < kl implies s.subrange(b, eq)[k] == p.key[k] by {
            assert(s[b + k] == wp[k]);
        }
    }
    assert(!in_quotes(s, eq + 1));
    assert(token_start(s, eq + 1) == b);
    assert(last_assign(s, eq + 1) == Some(eq));
    if p.quoted {
        let close = e - 1;
        assert(wp.len() == kl + 1 + vl + 2);
        assert(s[b + (kl + 1)] == wp[kl + 1]);
        assert(s[eq + 1] == '"');
        assert(s[b + (kl + vl + 2)] == wp[kl + vl + 2]);
        assert(s[close] == '"');
        assert forall|k: int| 0 <= k < vl implies s[eq + 2 + k] == #[trigger] p.value[k] by {
            assert(s[b + (kl + 2 + k)] == wp[kl + 2 + k]);
        }
        assert(s[close - 1] != '\\') by {
            if vl > 0 {
                assert(s[eq + 2 + (vl - 1)] == p.value[vl - 1]);
            }
        }
        assert forall|j: int| eq + 1 < j < close && #[trigger] s[j] == '"' implies s[j - 1]
            == '\\' by {
            assert(s[eq + 2 + (j - eq - 2)] == p.value[j - eq - 2]);
            assert(p.value[j - eq - 2] == '"');
            assert(j - eq - 2 > 0);
            assert(s[eq + 2 + (j - eq - 3)] == p.value[j - eq - 3]);
        }
        lemma_scan_quoted(s, eq + 1, close, close);
        assert(s.subrange(eq + 2, e - 1) =~= p.value);
    } else {
        assert(wp.len() == kl + 1 + vl);
        assert forall|k: int| 0 <= k < vl implies s[eq + 1 + k] == #[trigger] p.value[k] by {
            assert(s[b + (kl + 1 + k)] == wp[kl + 1 + k]);
        }
        assert forall|j: int| eq + 1 <= j < e implies #[trigger] s[j] != '=' && s[j] != '"' by {
            assert(s[eq + 1 + (j - eq - 1)] == p.value[j - eq - 1]);
        }
        assert(s[eq + 1 + 0] == p.value[0]);
        lemma_scan_bare(s, eq + 1, e);
        assert(s.subrange(eq + 1, e) =~= p.value);
    }
}

/// Where the scanner stands at the end of a line of well-formed pairs: the
/// last pair is pending, and the pairs before it are completed.
proof fn lemma_written_state(pairs: Seq<Pair>)
    requires
        pairs.len() >= 1,
        forall|i: int| 0 <= i < pairs.len() ==> well_formed(#[trigger] pairs[i]),
    ensures
        ({
            let line = written(pairs);
            let n = line.len() as int;
            let last = pairs.last();
            let eq = n - written_value(last).len() - 1;
            &&& 0 <= eq < n
            &&& last_assign(line, n) == Some(eq)
            &&& !in_quotes(line, n)
            &&& key_of(line, eq) == last.key
            &&& closed_fields(line, n) == bindings(pairs.drop_last())
            &&& if last.quoted {
                line[eq + 1] == '"' && n >= eq + 3 && line.subrange(eq + 2, n - 1) == last.value
            } else {
                line[eq + 1] != '"' && n >= eq + 2 && line.subrange(eq + 1, n) == last.value
            }
        }),
    decreases pairs.len(),
{
    let line = written(pairs);
    let last = pairs.last();
    if pairs.len() == 1 {
        lemma_scan_pair(line, 0, last);
        let eq = last.key.len() as int;
        lemma_last_assign(line, eq);
        assert(pairs.drop_last() =~= Seq::<Pair>::empty());
    } else {
        let before = pairs.drop_last();
        let head = written(before);
        let m = head.len() as int;
        assert forall|i: int| 0 <= i < before.len() implies well_formed(#[trigger] before[i]) by {
            assert(before[i] == pairs[i]);
        }
        lemma_written_state(before);
        let prev = before.last();
        let q = m - written_value(prev).len() - 1;
        assert(line == head + seq![' '] + written_pair(last));
        lemma_prefix(line, head, m);
        lemma_prefix(line, head, q);
        lemma_token_start_bounds(head, q);
        assert(key_of(line, q) =~= key_of(head, q));
        assert(line[m] == ' ');
        assert(is_boundary(line, m));
        assert(token_start(line, m + 1) == m + 1);
        assert(!in_quotes(line, m + 1));
        assert(last_assign(line, m + 1) == Some(q));
        assert(closed_fields(line, m + 1) == closed_fields(line, m));
        lemma_scan_pair(line, m + 1, last);
        let eq = m + 1 + last.key.len() as int;
        assert(has_value(q, m + 1));
        assert(line[q + 1] == head[q + 1]);
        if prev.quoted {
            assert(line.subrange(q + 2, m - 1) =~= head.subrange(q + 2, m - 1));
        } else {
            assert(line.subrange(q + 1, m) =~= head.subrange(q + 1, m));
        }
        assert(inner_value(line, q, m) == prev.value);
        assert(closed_fields(line, eq + 1) == closed_fields(line, eq).insert(
            prev.key,
            prev.value,
        ));
        assert(bindings(before) == bindings(before.drop_last()).insert(prev.key, prev.value));
    }
}

/// Writing pairs as a line and reading the line gives the pairs back.
///
/// For every list of well-formed pairs, the field map of its line binds
/// each key to the value of the last pair with that key, and nothing else.
/// Quoted values come back without their quotes and otherwise unchanged,
/// backslashes included.
pub proof fn lemma_round_trip(pairs: Seq<Pair>)
    requires
        forall|i: int| 0 <= i < pairs.len() ==> well_formed(#[trigger] pairs[i]),
    ensures
        tokenize(written(pairs)) == bindings(pairs),
{
    if pairs.len() > 0 {
        lemma_written_state(pairs);
        let line = written(pairs);
        let n = line.len() as int;
        let last = pairs.last();
        let eq = n - written_value(last).len() - 1;
        assert(tail_value(line, eq) == last.value);
    }
}

} // verus!
