//! The history-line parser: splitting a raw history line into its index,
//! timestamp and command tokens, rejoining the command tokens with single
//! spaces, and unescaping the shell's literal backslash-n markers back into
//! real newlines.
//!
//! Tokens are maximal runs of non-whitespace characters, separated by ASCII
//! whitespace.  Rejoining with single spaces is lossy on purpose: runs of
//! blanks inside a command are not reconstructed byte for byte.

use vstd::prelude::*;
use crate::text::{append_chars, chars_of, replace_all, replaced, string_of, subvec};

verus! {

/// One recorded command of the source shell's history: the epoch-seconds
/// timestamp (kept as opaque text, never parsed as a number) and the raw
/// command text.
#[derive(Clone, Debug)]
pub struct HistoryEntry {
    pub timestamp: String,
    pub command: String,
}

/// ASCII whitespace: the characters that separate tokens of a history line.
pub open spec fn is_space(c: char) -> bool {
    c == ' ' || c == '\t' || c == '\n' || c == '\r' || c == '\u{b}' || c == '\u{c}'
}

/// Whether `c` separates tokens.
fn is_space_char(c: char) -> (r: bool)
    ensures
        r == is_space(c),
{
    c == ' ' || c == '\t' || c == '\n' || c == '\r' || c == '\u{b}' || c == '\u{c}'
}

/// `s` without its leading whitespace.
pub open spec fn drop_spaces(s: Seq<char>) -> Seq<char>
    decreases s.len(),
{
    if s.len() > 0 && is_space(s[0]) {
        drop_spaces(s.skip(1))
    } else {
        s
    }
}

/// The leading token of `s`: its longest whitespace-free prefix.
pub open spec fn take_token(s: Seq<char>) -> Seq<char>
    decreases s.len(),
{
    if s.len() > 0 && !is_space(s[0]) {
        seq![s[0]] + take_token(s.skip(1))
    } else {
        Seq::empty()
    }
}

/// `s` without its leading token.
pub open spec fn drop_token(s: Seq<char>) -> Seq<char>
    decreases s.len(),
{
    if s.len() > 0 && !is_space(s[0]) {
        drop_token(s.skip(1))
    } else {
        s
    }
}

proof fn lemma_drop_spaces_props(s: Seq<char>)
    ensures
        drop_spaces(s).len() <= s.len(),
        drop_spaces(s).len() > 0 ==> !is_space(drop_spaces(s)[0]),
    decreases s.len(),
{
    if s.len() > 0 && is_space(s[0]) {
        lemma_drop_spaces_props(s.skip(1));
    }
}

proof fn lemma_drop_token_len(s: Seq<char>)
    ensures
        drop_token(s).len() <= s.len(),
        s.len() > 0 && !is_space(s[0]) ==> drop_token(s).len() < s.len(),
    decreases s.len(),
{
    if s.len() > 0 && !is_space(s[0]) {
        lemma_drop_token_len(s.skip(1));
    }
}

proof fn lemma_take_token_len(s: Seq<char>)
    ensures
        s.len() > 0 && !is_space(s[0]) ==> take_token(s).len() >= 1,
{
    if s.len() > 0 && !is_space(s[0]) {
        assert(take_token(s) == seq![s[0]] + take_token(s.skip(1)));
    }
}

/// The whitespace-separated tokens of `s`, in order.
pub open spec fn tokens(s: Seq<char>) -> Seq<Seq<char>>
    decreases s.len(),
    via tokens_dec
{
    let t = drop_spaces(s);
    if t.len() == 0 {
        Seq::empty()
    } else {
        seq![take_token(t)] + tokens(drop_token(t))
    }
}

#[via_fn]
proof fn tokens_dec(s: Seq<char>) {
    lemma_drop_spaces_props(s);
    lemma_drop_token_len(drop_spaces(s));
}

/// The tokens of `ts` joined with a single space between neighbours.
pub open spec fn joined(ts: Seq<Seq<char>>) -> Seq<char>
    decreases ts.len(),
{
    if ts.len() == 0 {
        Seq::empty()
    } else if ts.len() == 1 {
        ts[0]
    } else {
        ts[0] + seq![' '] + joined(ts.skip(1))
    }
}

/// The two-character escape the source shell writes for a newline embedded
/// in a multi-line command.
pub open spec fn escaped_marker() -> Seq<char> {
    seq!['\\', 'n']
}

/// A real newline.
pub open spec fn newline_seq() -> Seq<char> {
    seq!['\n']
}

/// `s` with every literal backslash-n escape turned back into a newline.
pub open spec fn unescaped(s: Seq<char>) -> Seq<char> {
    replaced(s, escaped_marker(), newline_seq())
}

/// What the reader makes of one raw history line: the first token (the
/// history index) is discarded, the second is the timestamp, and the
/// remaining tokens, joined with single spaces and unescaped, are the
/// command.  A line with fewer than two tokens is dropped.
pub open spec fn parsed(line: Seq<char>) -> Option<(Seq<char>, Seq<char>)> {
    let ts = tokens(line);
    if ts.len() >= 2 {
        Some((ts[1], unescaped(joined(ts.skip(2)))))
    } else {
        None
    }
}

/// The first position at or after `i` whose character is not whitespace.
fn skip_spaces(v: &Vec<char>, i: usize) -> (j: usize)
    requires
        i <= v@.len(),
    ensures
        i <= j <= v@.len(),
        v@.skip(j as int) == drop_spaces(v@.skip(i as int)),
{
    let mut j: usize = i;
    while j < v.len() && is_space_char(v[j])
        invariant
            i <= j <= v@.len(),
            drop_spaces(v@.skip(i as int)) == drop_spaces(v@.skip(j as int)),
        decreases v@.len() - j,
    {
        proof {
            assert(v@.skip(j as int)[0] == v@[j as int]);
            assert(v@.skip(j as int).skip(1) =~= v@.skip(j as int + 1));
        }
        j = j + 1;
    }
    proof {
        if j < v@.len() {
            assert(v@.skip(j as int)[0] == v@[j as int]);
        }
    }
    j
}

/// The end of the token that starts at `i`: the first position at or after
/// `i` whose character is whitespace.
fn token_end(v: &Vec<char>, i: usize) -> (j: usize)
    requires
        i <= v@.len(),
    ensures
        i <= j <= v@.len(),
        v@.skip(j as int) == drop_token(v@.skip(i as int)),
        v@.subrange(i as int, j as int) == take_token(v@.skip(i as int)),
{
    let mut j: usize = i;
    proof {
        assert(v@.subrange(i as int, i as int) =~= Seq::<char>::empty());
        assert(Seq::<char>::empty() + take_token(v@.skip(i as int)) =~= take_token(
            v@.skip(i as int),
        ));
    }
    while j < v.len() && !is_space_char(v[j])
        invariant
            i <= j <= v@.len(),
            drop_token(v@.skip(i as int)) == drop_token(v@.skip(j as int)),
            take_token(v@.skip(i as int)) == v@.subrange(i as int, j as int) + take_token(
                v@.skip(j as int),
            ),
        decreases v@.len() - j,
    {
        proof {
            assert(v@.skip(j as int)[0] == v@[j as int]);
            assert(v@.skip(j as int).skip(1) =~= v@.skip(j as int + 1));
            assert(take_token(v@.skip(j as int)) == seq![v@[j as int]] + take_token(
                v@.skip(j as int + 1),
            ));
            assert(v@.subrange(i as int, j as int) + (seq![v@[j as int]] + take_token(
                v@.skip(j as int + 1),
            )) =~= v@.subrange(i as int, j as int + 1) + take_token(v@.skip(j as int + 1)));
        }
        j = j + 1;
    }
    proof {
        if j < v@.len() {
            assert(v@.skip(j as int)[0] == v@[j as int]);
        }
        assert(v@.subrange(i as int, j as int) + Seq::<char>::empty() =~= v@.subrange(
            i as int,
            j as int,
        ));
    }
    j
}

/// The remaining tokens from position `i` on, joined with single spaces.
fn join_tokens(v: &Vec<char>, i: usize) -> (r: Vec<char>)
    requires
        i <= v@.len(),
    ensures
        r@ == joined(tokens(v@.skip(i as int))),
    decreases v@.len() - i,
{
    let j = skip_spaces(v, i);
    if j == v.len() {
        proof {
            assert(v@.skip(j as int) =~= Seq::<char>::empty());
            assert(tokens(v@.skip(i as int)) =~= Seq::<Seq<char>>::empty());
        }
        let r: Vec<char> = Vec::new();
        return r;
    }
    proof {
        lemma_drop_spaces_props(v@.skip(i as int));
        lemma_take_token_len(v@.skip(j as int));
    }
    let k = token_end(v, j);
    proof {
        assert(k > j);
        assert(tokens(v@.skip(i as int)) == seq![v@.subrange(j as int, k as int)] + tokens(
            v@.skip(k as int),
        ));
    }
    let mut tok = subvec(v, j, k);
    let ghost tok0 = tok@;
    let j2 = skip_spaces(v, k);
    if j2 == v.len() {
        proof {
            assert(v@.skip(j2 as int) =~= Seq::<char>::empty());
            assert(tokens(v@.skip(k as int)) =~= Seq::<Seq<char>>::empty());
            assert(seq![tok0] + Seq::<Seq<char>>::empty() =~= seq![tok0]);
        }
        return tok;
    }
    proof {
        assert(v@.skip(j2 as int).len() > 0);
        assert(tokens(v@.skip(k as int)).len() >= 1);
    }
    tok.push(' ');
    let rest = join_tokens(v, k);
    append_chars(&mut tok, &rest);
    proof {
        let ts = tokens(v@.skip(i as int));
        assert(ts.len() >= 2);
        assert(ts[0] == tok0);
        assert(ts.skip(1) =~= tokens(v@.skip(k as int)));
        assert(tok@ == tok0.push(' ') + rest@);
        assert(tok0.push(' ') + rest@ =~= tok0 + seq![' '] + joined(ts.skip(1)));
    }
    tok
}

/// Parses one raw history line into an entry, or drops it when it has fewer
/// than two tokens (no index and timestamp).
pub fn parse_line(line: &str) -> (r: Option<HistoryEntry>)
    ensures
        match r {
            Some(e) => parsed(line@) == Some((e.timestamp@, e.command@)),
            None => parsed(line@) is None,
        },
{
    let v = chars_of(line);
    proof {
        assert(v@.skip(0) =~= v@);
    }
    let i0 = skip_spaces(&v, 0);
    if i0 == v.len() {
        proof {
            assert(v@.skip(i0 as int) =~= Seq::<char>::empty());
            assert(tokens(v@) =~= Seq::<Seq<char>>::empty());
        }
        return None;
    }
    let i1 = token_end(&v, i0);
    proof {
        assert(tokens(v@) == seq![v@.subrange(i0 as int, i1 as int)] + tokens(v@.skip(i1 as int)));
    }
    let i2 = skip_spaces(&v, i1);
    if i2 == v.len() {
        proof {
            assert(v@.skip(i2 as int) =~= Seq::<char>::empty());
            assert(tokens(v@.skip(i1 as int)) =~= Seq::<Seq<char>>::empty());
            assert(tokens(v@).len() == 1);
        }
        return None;
    }
    let i3 = token_end(&v, i2);
    proof {
        assert(tokens(v@.skip(i1 as int)) == seq![v@.subrange(i2 as int, i3 as int)] + tokens(
            v@.skip(i3 as int),
        ));
        assert(tokens(v@).len() >= 2);
        assert(tokens(v@)[1] == v@.subrange(i2 as int, i3 as int));
        assert(tokens(v@).skip(2) =~= tokens(v@.skip(i3 as int)));
    }
    let ts = subvec(&v, i2, i3);
    let rest = join_tokens(&v, i3);
    let mut esc: Vec<char> = Vec::new();
    esc.push('\\');
    esc.push('n');
    let mut nl: Vec<char> = Vec::new();
    nl.push('\n');
    proof {
        assert(esc@ =~= escaped_marker());
        assert(nl@ =~= newline_seq());
    }
    let cmd = replace_all(&rest, &esc, &nl);
    Some(HistoryEntry { timestamp: string_of(&ts), command: string_of(&cmd) })
}

/// What the reader makes of a whole stream of raw lines: the entries of the
/// well-formed lines, in order, as (timestamp, command) pairs; malformed
/// lines contribute nothing.
pub open spec fn parsed_entries(lines: Seq<Seq<char>>) -> Seq<(Seq<char>, Seq<char>)>
    decreases lines.len(),
{
    if lines.len() == 0 {
        Seq::empty()
    } else {
        let rest = parsed_entries(lines.drop_last());
        match parsed(lines.last()) {
            Some(p) => rest.push(p),
            None => rest,
        }
    }
}

/// The (timestamp, command) pairs of a sequence of entries.
pub open spec fn entry_pairs(es: Seq<HistoryEntry>) -> Seq<(Seq<char>, Seq<char>)> {
    es.map_values(|e: HistoryEntry| (e.timestamp@, e.command@))
}

/// Parses every line of the stream, in order, dropping malformed lines.
pub fn parse_history_lines(lines: &Vec<String>) -> (r: Vec<HistoryEntry>)
    ensures
        entry_pairs(r@) == parsed_entries(lines.deep_view()),
{
    let mut r: Vec<HistoryEntry> = Vec::new();
    let mut i: usize = 0;
    proof {
        assert(lines.deep_view().take(0) =~= Seq::<Seq<char>>::empty());
        assert(entry_pairs(r@) =~= Seq::<(Seq<char>, Seq<char>)>::empty());
    }
    while i < lines.len()
        invariant
            i <= lines@.len(),
            entry_pairs(r@) == parsed_entries(lines.deep_view().take(i as int)),
        decreases lines@.len() - i,
    {
        let ghost prefix = lines.deep_view().take(i as int);
        let ghost prefix2 = lines.deep_view().take(i as int + 1);
        proof {
            assert(prefix2.drop_last() =~= prefix);
            assert(prefix2.last() == lines@[i as int]@);
        }
        let e = parse_line(lines[i].as_str());
        match e {
            Some(en) => {
                let ghost pairs = entry_pairs(r@);
                r.push(en);
                proof {
                    assert(entry_pairs(r@) =~= pairs.push((en.timestamp@, en.command@)));
                }
            },
            None => {},
        }
        i = i + 1;
    }
    proof {
        assert(lines.deep_view().take(lines@.len() as int) =~= lines.deep_view());
    }
    r
}

/// A line with its trailing carriage return stripped: the text's line
/// endings may be either a bare newline or a carriage return and newline.
pub open spec fn strip_cr(t: Seq<char>) -> Seq<char> {
    if t.len() > 0 && t.last() == '\r' {
        t.drop_last()
    } else {
        t
    }
}

/// Splits `s` at each newline, one accumulated line at a time: `cur` is the
/// part of the current line read so far and `acc` the finished lines.  A
/// final line ending is optional; an unterminated final line is kept as it
/// stands.
pub open spec fn lines_rec(s: Seq<char>, cur: Seq<char>, acc: Seq<Seq<char>>) -> Seq<Seq<char>>
    decreases s.len(),
{
    if s.len() == 0 {
        if cur.len() == 0 {
            acc
        } else {
            acc.push(cur)
        }
    } else if s[0] == '\n' {
        lines_rec(s.skip(1), Seq::empty(), acc.push(strip_cr(cur)))
    } else {
        lines_rec(s.skip(1), cur.push(s[0]), acc)
    }
}

/// The lines of `s`.
pub open spec fn split_lines_spec(s: Seq<char>) -> Seq<Seq<char>> {
    lines_rec(s, Seq::empty(), Seq::empty())
}

/// Splits the captured text of the history-listing invocation into lines.
pub fn split_lines(s: &str) -> (r: Vec<String>)
    ensures
        r.deep_view() == split_lines_spec(s@),
{
    let v = chars_of(s);
    let mut r: Vec<String> = Vec::new();
    let mut cur: Vec<char> = Vec::new();
    let mut i: usize = 0;
    proof {
        assert(v@.skip(0) =~= v@);
        assert(r.deep_view() =~= Seq::<Seq<char>>::empty());
    }
    while i < v.len()
        invariant
            i <= v@.len(),
            lines_rec(v@.skip(i as int), cur@, r.deep_view()) == split_lines_spec(s@),
        decreases v@.len() - i,
    {
        proof {
            assert(v@.skip(i as int)[0] == v@[i as int]);
            assert(v@.skip(i as int).skip(1) =~= v@.skip(i as int + 1));
        }
        let c = v[i];
        if c == '\n' {
            let ghost cur0 = cur@;
            if cur.len() > 0 && cur[cur.len() - 1] == '\r' {
                cur.pop();
            }
            assert(cur@ == strip_cr(cur0));
            let ghost acc0 = r.deep_view();
            r.push(string_of(&cur));
            proof {
                assert(r.deep_view() =~= acc0.push(strip_cr(cur0)));
            }
            cur = Vec::new();
        } else {
            cur.push(c);
        }
        i = i + 1;
    }
    proof {
        assert(v@.skip(v@.len() as int) =~= Seq::<char>::empty());
    }
    if cur.len() > 0 {
        let ghost acc0 = r.deep_view();
        r.push(string_of(&cur));
        proof {
            assert(r.deep_view() =~= acc0.push(cur@));
        }
    }
    r
}

/// A stream yields no more entries than it has lines.
pub proof fn lemma_parsed_entries_len(lines: Seq<Seq<char>>)
    ensures
        parsed_entries(lines).len() <= lines.len(),
    decreases lines.len(),
{
    if lines.len() > 0 {
        lemma_parsed_entries_len(lines.drop_last());
    }
}

/// A malformed line is dropped, not kept: a stream holding one yields
/// strictly fewer entries than it has lines.
pub proof fn lemma_dropped_line_shortens(lines: Seq<Seq<char>>, j: int)
    requires
        0 <= j < lines.len(),
        parsed(lines[j]) is None,
    ensures
        parsed_entries(lines).len() < lines.len(),
    decreases lines.len(),
{
    lemma_parsed_entries_len(lines.drop_last());
    if j < lines.len() - 1 {
        lemma_dropped_line_shortens(lines.drop_last(), j);
    }
}

} // verus!
